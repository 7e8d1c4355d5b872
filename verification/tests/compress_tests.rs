use std::io::Read;

use n_ohlcv::compress::{compress_lzma2_max, decompress_lzma2};

#[test]
fn compression_round_trip() {
    let data: Vec<u8> = (0..10_000u32).map(|i| (i % 251) as u8).collect();
    let packed = compress_lzma2_max(&data).unwrap();
    assert_ne!(packed, data);
    assert!(packed.len() < data.len());
    assert_eq!(decompress_lzma2(&packed).unwrap(), data);
}

#[test]
fn compressed_data_is_xz() {
    let data = b"open high low close".to_vec();
    let packed = compress_lzma2_max(&data).unwrap();
    let mut plain = Vec::new();
    xz2::read::XzDecoder::new(packed.as_slice()).read_to_end(&mut plain).unwrap();
    assert_eq!(plain, data);
}

#[test]
fn empty_data_round_trip() {
    let packed = compress_lzma2_max(&[]).unwrap();
    assert!(!packed.is_empty());
    assert_eq!(decompress_lzma2(&packed).unwrap(), Vec::<u8>::new());
}

#[test]
fn garbage_does_not_decompress() {
    assert!(decompress_lzma2(b"not xz at all").is_err());
}

#[test]
fn compression_is_deterministic_and_xz_tagged() {
    let data: Vec<u8> = (0..5000u32).map(|i| (i * 31 % 256) as u8).collect();
    let a = compress_lzma2_max(&data).unwrap();
    let b = compress_lzma2_max(&data).unwrap();
    assert_eq!(a, b);
    assert_eq!(&a[..6], &[0xFD, b'7', b'z', b'X', b'Z', 0x00]);
    assert_eq!(decompress_lzma2(&a).unwrap(), data);
}

#[test]
fn truncated_data_does_not_decompress() {
    let packed = compress_lzma2_max(b"some candles").unwrap();
    assert!(decompress_lzma2(&packed[..packed.len() - 4]).is_err());
}
