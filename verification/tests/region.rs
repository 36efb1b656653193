use barrique::lz4::{compress_bound, CompressStream, DecompressStream};
use barrique::region::{
    accept_region, hash_region, head_region, write_region, Pull, Push, RegionBuffer, RegionError, RegionHeader,
    Seed, Size,
};
use barrique::little_endian::{get_le, put_le};

#[test]
fn assert_region_static() {
    let sample = [1, 2, 3, 4, 5, 6, 7, 8, 9, 10];
    let serialized_static
        = [11, 0, 10, 0, 216, 132, 159, 113, 125, 26, 190, 198, 160, 1, 2, 3, 4, 5, 6, 7, 8, 9, 10];

    let mut dst = vec![];
    let mut switch = Push::new(&mut dst, Some(0));

    let mut region = RegionBuffer::new(0);
    region.write(&sample);
    region.pass(&mut switch).unwrap();

    assert_eq!(dst, serialized_static);
}

#[test]
fn pull_of_a_static_region() {
    let bytes: [u8; 25] = [
        11, 0, 10, 0, 216, 132, 159, 113, 125, 26, 190, 198, 160, 1, 2, 3, 4, 5, 6, 7, 8, 9, 10,
        77, 78,
    ];
    let mut switch = Pull::new(bytes.as_slice(), Some(0));
    let mut region = RegionBuffer::new(200_000);
    region.pass(&mut switch).unwrap();
    assert_eq!(region.remaining_len(), 10);
    assert_eq!(region.remaining_cap(), 65_525);
    assert_eq!(region.read(3).unwrap(), &[1, 2, 3]);
    assert_eq!(region.read(8), None);
    assert_eq!(region.read(7).unwrap(), &[4, 5, 6, 7, 8, 9, 10]);
    assert_eq!(region.remaining_len(), 0);
    assert_eq!(switch.seed(), Some(Seed::new(0)));
    assert_eq!(switch.into_inner(), &[77, 78]);
}

#[test]
fn hash_of_a_region() {
    let sample: [u8; 10] = [1, 2, 3, 4, 5, 6, 7, 8, 9, 10];
    let expected = u64::from_le_bytes([216, 132, 159, 113, 125, 26, 190, 198]);
    assert_eq!(hash_region(Some(Seed::new(0)), &sample), expected);
    assert_eq!(hash_region(None, &sample), 0);
    assert_eq!(Seed::new(0).hash(&[]), 0xEF46_DB37_51D8_E999);
    assert_eq!(Seed::from(5), Seed::new(5));
    assert_eq!(Seed::default(), Seed::new(0));
}

#[test]
fn swapped_buffers() {
    let mut region = RegionBuffer::new(0);
    region.write(&[1, 2]);
    region.swap();
    assert_eq!(region.remaining_len(), 0);
    region.write(&[3]);
    region.swap();
    assert_eq!(region.read(2).unwrap(), &[1, 2]);
}

#[test]
fn region_judged() {
    let header = RegionHeader { compressed_size: 3, alloc_size: 2, hash: 9 };
    assert!(matches!(accept_region(header, None, 9), Err(RegionError::MalformedRegion)));
    assert!(matches!(accept_region(header, Some(vec![1]), 8), Err(RegionError::InvalidHash)));
    assert_eq!(accept_region(header, Some(vec![1]), 9).unwrap(), vec![1]);
}

#[test]
fn region_headed() {
    let header = head_region(65_535, &[0; 65_535], 7);
    assert_eq!(header, RegionHeader { compressed_size: 65_535, alloc_size: 65_535, hash: 7 });
    let header = head_region(1, &[0; 65_540], 7);
    assert_eq!(header, RegionHeader { compressed_size: 4, alloc_size: 1, hash: 7 });
}

#[test]
fn region_laid_out() {
    let header = RegionHeader { compressed_size: 0x0102, alloc_size: 0x0304, hash: 5 };
    let mut arena = [0xFFu8; 15];
    write_region(&mut arena, header, &[7, 8]);
    assert_eq!(arena, [2, 1, 4, 3, 5, 0, 0, 0, 0, 0, 0, 0, 7, 8, 0xFF]);
    assert_eq!(RegionHeader::from_bytes(&arena), header);
    assert_eq!(header.into_bytes(), arena[..12].to_vec());
}

#[test]
fn sizes() {
    assert_eq!(Size::default().cap(), 4096);
    assert_eq!(Size::full().cap(), 131_070);
    assert_eq!(Size::manual(17).cap(), 17);
    assert_eq!(Size::manual(usize::MAX).cap(), 0);
    assert_eq!(Size::<()>::Manual(-5).cap(), 0);
    assert_eq!(Size::Auto(String::from("Hello, world!")).cap(), 17);
}

#[test]
fn compression_bound() {
    assert_eq!(compress_bound(0), 16);
    assert_eq!(compress_bound(255), 272);
    assert_eq!(compress_bound(65_535), 65_808);
    assert_eq!(compress_bound(0x7E00_0001), 0);
}

#[test]
fn blocks_of_a_stream() {
    let first = vec![5u8; 1000];
    let mut second = vec![5u8; 900];
    second.push(1);
    let mut compress = CompressStream::new();
    let a = compress.compress(&first);
    assert!(a.len() < 100);
    compress.keep(&first);
    let b = compress.compress(&second);
    compress.keep(&second);

    let mut decompress = DecompressStream::new();
    assert_eq!(decompress.decompress(&a, 999), None);
    assert_eq!(decompress.decompress(&a, 1000).unwrap(), first);
    assert_eq!(decompress.decompress(&[], 10), None);
    assert_eq!(decompress.decompress(&b, 5000).unwrap(), second);
    assert_eq!(decompress.decompress(&compress.compress(&[]), 10), None);
}

#[test]
fn little_endian_numbers() {
    assert_eq!(put_le(0x0102_0304, 4), vec![4, 3, 2, 1]);
    assert_eq!(put_le(0x0102_0304, 2), vec![4, 3]);
    assert_eq!(put_le(1, 0), Vec::<u8>::new());
    assert_eq!(get_le(&[4, 3, 2, 1]), 0x0102_0304);
    assert_eq!(get_le(&[0xFF; 16]), u128::MAX);
}
