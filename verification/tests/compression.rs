use std::io::Read;

use bz2_fastdl::compress::compress_data;

#[test]
fn compressed_output_round_trips() {
    let data: Vec<u8> = b"the quick brown fox jumps over the lazy dog "
        .iter()
        .cycle()
        .take(4096)
        .copied()
        .collect();
    let out = compress_data(&data);
    assert_ne!(out, data);
    // a bzip2 stream at the highest level starts with the magic BZh9
    assert_eq!(&out[..4], b"BZh9");
    let mut back = Vec::new();
    bzip2::read::BzDecoder::new(out.as_slice())
        .read_to_end(&mut back)
        .unwrap();
    assert_eq!(back, data);
}

#[test]
fn empty_input_round_trips() {
    let data: Vec<u8> = Vec::new();
    let out = compress_data(&data);
    assert!(!out.is_empty());
    assert_ne!(out, data);
    let mut back = Vec::new();
    bzip2::read::BzDecoder::new(out.as_slice())
        .read_to_end(&mut back)
        .unwrap();
    assert_eq!(back, data);
}

#[test]
fn compression_is_deterministic() {
    let data = b"deterministic stream transform".to_vec();
    let a = compress_data(&data);
    let b = compress_data(&data);
    assert_eq!(a, b);
}
