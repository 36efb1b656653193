use barrique::decode::{get, Decode, DecodeBearer, DecodeError, StreamDecoderBuilder};
use barrique::decode::ReadError;
use barrique::encode::{Encode, EncodeBearer, EncodeError, StreamEncoderBuilder, WriteError};
use barrique::cursor::Cursor;
use barrique::region::{max_encoded_size, RegionError};

/// Bytes without any structure to compress.
fn noise(len: usize) -> Vec<u8> {
    let mut state: u64 = 0x9E37_79B9_7F4A_7C15;
    let mut bytes = Vec::with_capacity(len);
    while bytes.len() < len {
        state ^= state << 13;
        state ^= state >> 7;
        state ^= state << 17;
        bytes.push((state >> 32) as u8);
    }
    bytes
}

#[test]
fn back_and_forth() {
    let sample = [1, 2, 3, 4, 5, 6, 7, 8, 9, 10];
    let mut dst = vec![];

    let mut encoder = StreamEncoderBuilder::new(0).build(&mut dst);

    Encode::encode(&mut encoder, &sample).unwrap();
    encoder.flush().unwrap();

    let mut decoder = StreamDecoderBuilder::new(0).build(dst.as_slice()).unwrap();

    let value = <[i32; 10] as Decode>::decode(&mut decoder).unwrap();
    assert_eq!(value, sample);
}

#[test]
fn values_follow_one_another() {
    let mut dst = vec![];
    let mut encoder = StreamEncoderBuilder::new(64).seed(7).build(&mut dst);
    String::encode(&mut encoder, &"She sells seashells".to_string()).unwrap();
    u64::encode(&mut encoder, &115104101108108).unwrap();
    Vec::<Option<i16>>::encode(&mut encoder, &vec![Some(-3), None]).unwrap();
    encoder.flush().unwrap();

    let mut decoder = StreamDecoderBuilder::new(64).seed(7).build(dst.as_slice()).unwrap();
    assert_eq!(get::<String>(&mut decoder).unwrap(), "She sells seashells");
    assert_eq!(get::<u64>(&mut decoder).unwrap(), 115104101108108);
    assert_eq!(get::<Vec<Option<i16>>>(&mut decoder).unwrap(), vec![Some(-3), None]);
}

#[test]
fn many_regions() {
    let values: Vec<u32> = (0..60_000u32).map(|i| i / 7).collect();
    let mut dst = vec![];
    let mut encoder = StreamEncoderBuilder::new(0).build(&mut dst);
    Encode::encode(&mut encoder, &values).unwrap();
    encoder.flush().unwrap();

    // 4 bytes of length and 240000 bytes of items in regions of 65535 bytes,
    // none of which splits an item
    let mut at = 0;
    let mut sizes = vec![];
    while at < dst.len() {
        let compressed = u16::from_le_bytes([dst[at], dst[at + 1]]) as usize;
        sizes.push(u16::from_le_bytes([dst[at + 2], dst[at + 3]]));
        at += 12 + compressed;
    }
    assert_eq!(at, dst.len());
    assert_eq!(sizes, vec![65532, 65532, 65532, 43408]);

    let mut decoder = StreamDecoderBuilder::new(0).build(dst.as_slice()).unwrap();
    assert_eq!(get::<Vec<u32>>(&mut decoder).unwrap(), values);
}

#[test]
fn later_regions_refer_to_earlier_ones() {
    let block = noise(30_000);
    let mut one = vec![];
    let mut encoder = StreamEncoderBuilder::new(0).build(&mut one);
    encoder.write(&block).unwrap();
    encoder.flush().unwrap();

    let mut two = vec![];
    let mut encoder = StreamEncoderBuilder::new(0).build(&mut two);
    encoder.write(&block).unwrap();
    encoder.flush().unwrap();
    encoder.write(&block).unwrap();
    encoder.flush().unwrap();
    assert!(two.len() < one.len() + 1_000);

    let mut decoder = StreamDecoderBuilder::new(0).build(two.as_slice()).unwrap();
    assert_eq!(decoder.read(30_000).unwrap(), block.as_slice());
    assert_eq!(decoder.read(30_000).unwrap(), block.as_slice());
}

#[test]
fn regions_of_small_sizes() {
    // Each region has the one before it, of any small size, to refer to
    let mut dst = vec![];
    let mut encoder = StreamEncoderBuilder::new(0).seed(2).build(&mut dst);
    let mut chunks = vec![];
    for len in 1..60usize {
        for kind in 0..4usize {
            let chunk: Vec<u8> = (0..len).map(|i| [7, i, i % 3, i * i][kind] as u8).collect();
            encoder.write(&chunk).unwrap();
            encoder.flush().unwrap();
            chunks.push(chunk);
        }
    }
    let mut decoder = StreamDecoderBuilder::new(0).seed(2).build(dst.as_slice()).unwrap();
    for chunk in chunks {
        assert_eq!(decoder.read(chunk.len()).unwrap(), chunk.as_slice());
    }
}

#[test]
fn arbitrary_bodies_are_refused_or_read() {
    for seed in 0..2_000usize {
        let body: Vec<u8> = noise(seed % 90 + 1).iter().map(|b| b ^ (seed as u8)).collect();
        let mut bytes = vec![body.len() as u8, 0, (seed % 251) as u8, (seed % 3) as u8];
        bytes.extend_from_slice(&[0; 8]);
        bytes.extend_from_slice(&body);
        match StreamDecoderBuilder::new(0).build(bytes.as_slice()) {
            Ok(mut decoder) => assert_eq!(decoder.read(1).unwrap().len(), 1),
            Err(e) => assert!(matches!(e, RegionError::MalformedRegion)),
        }
    }
}

#[test]
fn size_stays_within_the_bound() {
    // Regions which are compressed a little
    let mut block = noise(200_000);
    for i in 0..200 {
        block.copy_within(i * 1_000..i * 1_000 + 300, i * 1_000 + 500);
    }
    let mut dst = vec![];
    let mut encoder = StreamEncoderBuilder::new(0).build(&mut dst);
    let mut at = 0;
    while at < block.len() {
        let end = block.len().min(at + 65_535);
        encoder.write(&block[at..end]).unwrap();
        at = end;
    }
    encoder.flush().unwrap();
    assert!(dst.len() > 100_000);
    assert!(dst.len() <= max_encoded_size(200_000));
    assert_eq!(max_encoded_size(0), 16);
    assert_eq!(max_encoded_size(1), 17 + 12);
    assert_eq!(max_encoded_size(65534), 65806 + 12);
    assert_eq!(max_encoded_size(65535), 65808 + 16 + 12);
    assert_eq!(max_encoded_size(65536), 65808 + 17 + 24);
}

#[test]
fn regions_of_noise_come_back_up_to_a_size() {
    let block = noise(65_264);
    let mut dst = vec![];
    let mut encoder = StreamEncoderBuilder::new(0).seed(1).build(&mut dst);
    encoder.write(&block).unwrap();
    encoder.flush().unwrap();

    let mut decoder = StreamDecoderBuilder::new(0).seed(1).build(dst.as_slice()).unwrap();
    assert_eq!(decoder.read(65_264).unwrap(), block.as_slice());
}

#[test]
fn length_of_a_full_region_of_noise_is_cut() {
    let block = noise(65_535);
    let mut dst = vec![];
    let mut encoder = StreamEncoderBuilder::new(0).build(&mut dst);
    encoder.write(&block).unwrap();
    encoder.write(&[1]).unwrap();

    let body = dst.len() - 12;
    assert!(body > 65_535);
    assert_eq!(u16::from_le_bytes([dst[0], dst[1]]) as usize, body - 65_536);
    assert_eq!(u16::from_le_bytes([dst[2], dst[3]]), 65_535);
    assert!(StreamDecoderBuilder::new(0).build(dst.as_slice()).is_err());
}

#[test]
fn region_expands_into_the_room_there_is() {
    // Ten bytes, of which the header tells nine
    let src = [11, 0, 9, 0, 0, 0, 0, 0, 0, 0, 0, 0, 160, 1, 2, 3, 4, 5, 6, 7, 8, 9, 10];
    for size in [0, 9] {
        assert!(matches!(
            StreamDecoderBuilder::new(size).build(src.as_slice()),
            Err(RegionError::MalformedRegion)
        ));
    }
    for size in [10, 1_000, 65_535, 200_000] {
        let mut decoder = StreamDecoderBuilder::new(size).build(src.as_slice()).unwrap();
        assert_eq!(decoder.read(10).unwrap(), one_to_ten());
        // The room of a buffer that is reused
        let raw = decoder.into_raw();
        assert!(StreamDecoderBuilder::from_raw(raw).build(src.as_slice()).is_ok());
    }

    // A second region is pulled into a buffer of its own, 256 bytes if it is to be made
    let mut twice = src.to_vec();
    twice[2] = 10;
    twice.extend_from_slice(&src);
    for size in [0, 65_535, 65_545] {
        let mut decoder = StreamDecoderBuilder::new(size).build(twice.as_slice()).unwrap();
        assert_eq!(decoder.read(10).unwrap(), one_to_ten());
        assert_eq!(decoder.read(10).unwrap(), one_to_ten());
    }
    let mut decoder = StreamDecoderBuilder::new(65_536).build(twice.as_slice()).unwrap();
    assert_eq!(decoder.read(10).unwrap(), one_to_ten());
    assert!(matches!(decoder.read(10), Err(RegionError::MalformedRegion)));
}

fn one_to_ten() -> &'static [u8] {
    &[1, 2, 3, 4, 5, 6, 7, 8, 9, 10]
}

#[test]
fn reads_again_after_a_failure() {
    let src = [11, 0, 10, 0, 0, 0, 0, 0, 0, 0, 0, 0, 160, 1, 2, 3, 4, 5, 6, 7, 8, 9, 10];
    let mut decoder = StreamDecoderBuilder::new(0).build(src.as_slice()).unwrap();
    assert_eq!(decoder.read(7).unwrap(), &[1, 2, 3, 4, 5, 6, 7]);
    for _ in 0..3 {
        assert!(matches!(
            decoder.read(4),
            Err(RegionError::ReadFailure(ReadError::OutOfBounds))
        ));
    }
    assert_eq!(decoder.read(3).unwrap(), &[8, 9, 10]);
    assert!(decoder.read(1).is_err());
    assert!(decoder.read(1).is_err());

    // The same with a region in the way that is malformed or has another hash
    for (at, byte) in [(12, 0xF0u8), (4, 1)] {
        let mut dst = vec![];
        let mut encoder = StreamEncoderBuilder::new(0).build(&mut dst);
        encoder.write(&[1, 2, 3]).unwrap();
        encoder.flush().unwrap();
        let second = dst.len();
        let mut encoder = StreamEncoderBuilder::new(0).build(&mut dst);
        encoder.write(&[4, 5]).unwrap();
        encoder.flush().unwrap();
        dst[second + at] = byte;
        let mut decoder = StreamDecoderBuilder::new(0).build(dst.as_slice()).unwrap();
        assert_eq!(decoder.read(1).unwrap(), &[1]);
        assert!(decoder.read(3).is_err());
        assert!(decoder.read(3).is_err());
        assert_eq!(decoder.read(2).unwrap(), &[2, 3]);
    }
}

#[test]
fn slices_as_destinations() {
    let mut room = [9u8; 60];
    let mut encoder = StreamEncoderBuilder::new(0).build(room.as_mut_slice());
    u64::encode(&mut encoder, &5).unwrap();
    encoder.flush().unwrap();
    let rest = encoder.into_inner();
    assert_eq!(rest.len(), 60 - 12 - 9);
    assert_eq!(rest[0], 9);

    let mut decoder = StreamDecoderBuilder::new(0).build(room.as_slice()).unwrap();
    assert_eq!(get::<u64>(&mut decoder).unwrap(), 5);
}

#[test]
fn request_greater_than_a_region() {
    let mut dst = vec![];
    let mut encoder = StreamEncoderBuilder::new(0).build(&mut dst);
    assert!(matches!(encoder.write(&vec![0; 65_536]), Err(RegionError::OutOfBounds)));
    encoder.write(&vec![0; 65_535]).unwrap();
    encoder.write(&[]).unwrap();
    encoder.write(&[1]).unwrap();
    encoder.flush().unwrap();

    let mut decoder = StreamDecoderBuilder::new(0).build(dst.as_slice()).unwrap();
    assert_eq!(decoder.read(65_535).unwrap().len(), 65_535);
    assert_eq!(decoder.read(1).unwrap(), &[1]);
}

#[test]
fn destination_without_room() {
    let mut room = [0u8; 40];
    let mut encoder = StreamEncoderBuilder::new(0).build(Cursor::new(room.as_mut_slice()));
    u64::encode(&mut encoder, &5).unwrap();
    encoder.flush().unwrap();
    u64::encode(&mut encoder, &6).unwrap();
    assert!(matches!(
        encoder.flush(),
        Err(RegionError::WriteFailure(WriteError::Custom(_)))
    ));

    let mut decoder = StreamDecoderBuilder::new(0).build(room.as_slice()).unwrap();
    assert_eq!(get::<u64>(&mut decoder).unwrap(), 5);
}

#[test]
fn encode_error_of_a_full_destination() {
    let mut room = [0u8; 8];
    let mut encoder = StreamEncoderBuilder::new(0).build(Cursor::new(room.as_mut_slice()));
    let values = vec![0u8; 70_000];
    assert!(matches!(
        Vec::<u8>::encode(&mut encoder, &values),
        Err(EncodeError::BearerError(RegionError::WriteFailure(_)))
    ));
}

#[test]
fn flush_of_nothing_writes_nothing() {
    let mut dst = vec![];
    let mut encoder = StreamEncoderBuilder::new(0).build(&mut dst);
    <()>::encode(&mut encoder, &()).unwrap();
    encoder.flush().unwrap();
    encoder.flush().unwrap();
    assert!(dst.is_empty());
    assert!(matches!(
        StreamDecoderBuilder::new(0).build(dst.as_slice()),
        Err(RegionError::ReadFailure(ReadError::OutOfBounds))
    ));
}

fn sample_stream(seed: Option<u64>) -> Vec<u8> {
    let mut dst = vec![];
    let mut builder = StreamEncoderBuilder::new(0);
    if let Some(seed) = seed {
        builder = builder.seed(seed);
    }
    let mut encoder = builder.build(&mut dst);
    String::encode(&mut encoder, &"That's a barrique".to_string()).unwrap();
    encoder.flush().unwrap();
    dst
}

#[test]
fn hash_is_zero_without_a_seed() {
    let plain = sample_stream(None);
    let seeded = sample_stream(Some(3));
    assert_eq!(plain[4..12], [0; 8]);
    assert_ne!(seeded[4..12], [0; 8]);
    assert_eq!(plain[..4], seeded[..4]);
    assert_eq!(plain[12..], seeded[12..]);
}

#[test]
fn seeds_have_to_agree() {
    let seeded = sample_stream(Some(3));
    assert!(matches!(
        StreamDecoderBuilder::new(0).build(seeded.as_slice()),
        Err(RegionError::InvalidHash)
    ));
    assert!(matches!(
        StreamDecoderBuilder::new(0).seed(4).build(seeded.as_slice()),
        Err(RegionError::InvalidHash)
    ));
    assert!(StreamDecoderBuilder::new(0).seed(3).build(seeded.as_slice()).is_ok());
    let plain = sample_stream(None);
    assert!(matches!(
        StreamDecoderBuilder::new(0).seed(3).build(plain.as_slice()),
        Err(RegionError::InvalidHash)
    ));
}

#[test]
fn damaged_streams() {
    let stream = sample_stream(None);
    assert!(matches!(
        StreamDecoderBuilder::new(0).build(&stream[..11]),
        Err(RegionError::ReadFailure(ReadError::OutOfBounds))
    ));
    assert!(matches!(
        StreamDecoderBuilder::new(0).build(&stream[..stream.len() - 1]),
        Err(RegionError::InvalidSizeHint)
    ));
    let mut short = stream.clone();
    short[2] -= 1;
    assert!(matches!(
        StreamDecoderBuilder::new(0).build(short.as_slice()),
        Err(RegionError::MalformedRegion)
    ));
    // A body which expands to nothing
    let empty = [1, 0, 5, 0, 0, 0, 0, 0, 0, 0, 0, 0, 0];
    assert!(matches!(
        StreamDecoderBuilder::new(0).build(empty.as_slice()),
        Err(RegionError::MalformedRegion)
    ));
}

#[test]
fn reads_past_the_end() {
    let mut dst = vec![];
    let mut encoder = StreamEncoderBuilder::new(0).build(&mut dst);
    u16::encode(&mut encoder, &1).unwrap();
    encoder.flush().unwrap();
    u16::encode(&mut encoder, &2).unwrap();
    encoder.flush().unwrap();

    // The rest of a region is given up for the next one
    let mut decoder = StreamDecoderBuilder::new(0).build(dst.as_slice()).unwrap();
    assert_eq!(decoder.read(1).unwrap(), &[1]);
    assert_eq!(decoder.read(2).unwrap(), &[2, 0]);
    assert!(matches!(
        get::<u16>(&mut decoder),
        Err(DecodeError::BearerError(RegionError::ReadFailure(ReadError::OutOfBounds)))
    ));

    let mut decoder = StreamDecoderBuilder::new(0).build(dst.as_slice()).unwrap();
    assert!(matches!(decoder.read(3), Err(RegionError::OutOfBounds)));
}

#[test]
fn buffers_are_reused() {
    let mut first = vec![];
    let mut encoder = StreamEncoderBuilder::new(0).build(&mut first);
    String::encode(&mut encoder, &"never flushed".to_string()).unwrap();
    let raw = encoder.into_raw();
    assert!(first.is_empty());

    let mut second = vec![];
    let mut encoder = StreamEncoderBuilder::from_raw(raw).build(&mut second);
    u64::encode(&mut encoder, &115104101108108).unwrap();
    encoder.flush().unwrap();

    let mut decoder = StreamDecoderBuilder::new(0).build(second.as_slice()).unwrap();
    assert_eq!(get::<u64>(&mut decoder).unwrap(), 115104101108108);
    let raw = decoder.into_raw();
    let mut decoder = StreamDecoderBuilder::from_raw(raw).build(second.as_slice()).unwrap();
    assert_eq!(get::<u64>(&mut decoder).unwrap(), 115104101108108);
}

#[test]
fn bytes_may_follow_a_stream() {
    let mut stream = sample_stream(Some(9));
    stream.extend_from_slice(b"something else");
    let mut decoder = StreamDecoderBuilder::new(0).seed(9).build(stream.as_slice()).unwrap();
    assert_eq!(get::<String>(&mut decoder).unwrap(), "That's a barrique");
}

#[test]
fn streams_are_appended() {
    let mut dst = b"before".to_vec();
    let mut encoder = StreamEncoderBuilder::new(0).build(&mut dst);
    u8::encode(&mut encoder, &200).unwrap();
    encoder.flush().unwrap();
    assert_eq!(&dst[..6], b"before");
    assert_eq!(dst[6..], [2, 0, 1, 0, 0, 0, 0, 0, 0, 0, 0, 0, 0x10, 200]);
}
