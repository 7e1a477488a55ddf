use flate2::bufread::{DeflateDecoder, DeflateEncoder, GzDecoder, GzEncoder};
use flate2::Compression;
use http_core::http_compression::{compress, decompress, CodecError, ContentEncoding};
use std::io::Read;

fn sample() -> Vec<u8> {
    let mut data = Vec::new();
    for i in 0..2000u32 {
        data.extend_from_slice(format!("line {} of the sample\r\n", i % 17).as_bytes());
    }
    data.extend_from_slice(&[0, 255, 1, 254, 13, 10]);
    data
}

#[test]
fn from_string_knows_gzip_and_deflate() {
    assert_eq!(ContentEncoding::from_string("gzip"), ContentEncoding::GZIP);
    assert_eq!(ContentEncoding::from_string("deflate"), ContentEncoding::DEFLATE);
}

#[test]
fn from_string_takes_any_other_token_for_the_identity() {
    for token in ["identity", "", "br", "GZIP", "Gzip", " gzip", "gzip ", "gzip, deflate", "deflate;q=1"] {
        assert_eq!(ContentEncoding::from_string(token), ContentEncoding::IDENTITY);
    }
}

#[test]
fn to_string_names_each_encoding() {
    assert_eq!(ContentEncoding::GZIP.to_string(), "gzip");
    assert_eq!(ContentEncoding::DEFLATE.to_string(), "deflate");
    assert_eq!(ContentEncoding::IDENTITY.to_string(), "identity");
}

#[test]
fn every_encoding_is_named_by_its_own_token() {
    for encoding in [ContentEncoding::GZIP, ContentEncoding::DEFLATE, ContentEncoding::IDENTITY] {
        assert_eq!(ContentEncoding::from_string(&encoding.to_string()), encoding);
    }
}

#[test]
fn identity_leaves_the_bytes_as_they_are() {
    let data = sample();
    assert_eq!(compress(ContentEncoding::IDENTITY, &data), Ok(data.clone()));
    assert_eq!(decompress(ContentEncoding::IDENTITY, &data), Ok(data.clone()));
    assert_eq!(compress(ContentEncoding::IDENTITY, b""), Ok(Vec::new()));
    assert_eq!(decompress(ContentEncoding::IDENTITY, b"\x1f\x8b"), Ok(vec![0x1f, 0x8b]));
}

#[test]
fn identity_round_trip() {
    for data in [Vec::new(), b"abc".to_vec(), sample()] {
        let packed = compress(ContentEncoding::IDENTITY, &data).unwrap();
        assert_eq!(decompress(ContentEncoding::IDENTITY, &packed), Ok(data));
    }
}

#[test]
fn gzip_round_trip() {
    for data in [Vec::new(), b"abc".to_vec(), sample()] {
        let packed = compress(ContentEncoding::GZIP, &data).unwrap();
        assert_eq!(decompress(ContentEncoding::GZIP, &packed), Ok(data));
    }
}

#[test]
fn deflate_round_trip() {
    for data in [Vec::new(), b"abc".to_vec(), sample()] {
        let packed = compress(ContentEncoding::DEFLATE, &data).unwrap();
        assert_eq!(decompress(ContentEncoding::DEFLATE, &packed), Ok(data));
    }
}

#[test]
fn gzip_writes_a_gzip_stream_at_the_default_level() {
    let data = sample();
    let packed = compress(ContentEncoding::GZIP, &data).unwrap();
    assert_eq!(&packed[..4], &[0x1f, 0x8b, 8, 0]);
    assert!(packed.len() < data.len());
    let mut expected = Vec::new();
    GzEncoder::new(&data[..], Compression::new(6)).read_to_end(&mut expected).unwrap();
    assert_eq!(packed, expected);
    let mut unpacked = Vec::new();
    GzDecoder::new(&packed[..]).read_to_end(&mut unpacked).unwrap();
    assert_eq!(unpacked, data);
}

#[test]
fn deflate_writes_a_raw_stream_at_the_default_level() {
    let data = sample();
    let packed = compress(ContentEncoding::DEFLATE, &data).unwrap();
    assert!(packed.len() < data.len());
    assert_ne!(&packed[..2], &[0x1f, 0x8b]);
    let mut expected = Vec::new();
    DeflateEncoder::new(&data[..], Compression::new(6)).read_to_end(&mut expected).unwrap();
    assert_eq!(packed, expected);
    let mut unpacked = Vec::new();
    DeflateDecoder::new(&packed[..]).read_to_end(&mut unpacked).unwrap();
    assert_eq!(unpacked, data);
}

#[test]
fn compression_gives_the_same_bytes_every_time() {
    let data = sample();
    for encoding in [ContentEncoding::GZIP, ContentEncoding::DEFLATE, ContentEncoding::IDENTITY] {
        assert_eq!(compress(encoding, &data), compress(encoding, &data));
    }
}

#[test]
fn gzip_and_deflate_streams_differ() {
    let gzip = compress(ContentEncoding::GZIP, b"abc").unwrap();
    let deflate = compress(ContentEncoding::DEFLATE, b"abc").unwrap();
    assert_ne!(gzip, deflate);
    assert_ne!(gzip, b"abc");
    assert_ne!(deflate, b"abc");
    assert_eq!(gzip.len(), deflate.len() + 18);
}

#[test]
fn decompress_reads_streams_of_other_writers() {
    let mut gzip = Vec::new();
    GzEncoder::new(&b"written elsewhere"[..], Compression::best()).read_to_end(&mut gzip).unwrap();
    assert_eq!(decompress(ContentEncoding::GZIP, &gzip), Ok(b"written elsewhere".to_vec()));
    let mut deflate = Vec::new();
    DeflateEncoder::new(&b"written elsewhere"[..], Compression::fast())
        .read_to_end(&mut deflate)
        .unwrap();
    assert_eq!(decompress(ContentEncoding::DEFLATE, &deflate), Ok(b"written elsewhere".to_vec()));
}

#[test]
fn decompress_rejects_malformed_gzip() {
    assert_eq!(
        decompress(ContentEncoding::GZIP, b"not gzip at all"),
        Err(CodecError::DecompressionFailed)
    );
    assert_eq!(decompress(ContentEncoding::GZIP, b""), Err(CodecError::DecompressionFailed));
    let mut packed = compress(ContentEncoding::GZIP, &sample()).unwrap();
    let cut = packed.len() / 2;
    assert_eq!(
        decompress(ContentEncoding::GZIP, &packed[..cut]),
        Err(CodecError::DecompressionFailed)
    );
    let last = packed.len() - 5;
    packed[last] ^= 0x55;
    assert_eq!(decompress(ContentEncoding::GZIP, &packed), Err(CodecError::DecompressionFailed));
}

#[test]
fn decompress_rejects_what_does_not_start_as_gzip() {
    let packed = compress(ContentEncoding::GZIP, b"abc").unwrap();
    assert_eq!(decompress(ContentEncoding::GZIP, &packed), Ok(b"abc".to_vec()));
    for i in 0..3 {
        let mut changed = packed.clone();
        changed[i] ^= 1;
        assert_eq!(
            decompress(ContentEncoding::GZIP, &changed),
            Err(CodecError::DecompressionFailed)
        );
    }
    for n in 0..3 {
        assert_eq!(
            decompress(ContentEncoding::GZIP, &packed[..n]),
            Err(CodecError::DecompressionFailed)
        );
    }
}

#[test]
fn decompress_rejects_malformed_deflate() {
    assert_eq!(
        decompress(ContentEncoding::DEFLATE, &[0xff; 16]),
        Err(CodecError::DecompressionFailed)
    );
    let packed = compress(ContentEncoding::DEFLATE, &sample()).unwrap();
    let cut = packed.len() / 2;
    assert_eq!(
        decompress(ContentEncoding::DEFLATE, &packed[..cut]),
        Err(CodecError::DecompressionFailed)
    );
}

#[test]
fn decompress_does_not_take_one_encoding_for_the_other() {
    let gzip = compress(ContentEncoding::GZIP, &sample()).unwrap();
    assert_ne!(decompress(ContentEncoding::DEFLATE, &gzip), Ok(sample()));
    let deflate = compress(ContentEncoding::DEFLATE, &sample()).unwrap();
    assert_eq!(decompress(ContentEncoding::GZIP, &deflate), Err(CodecError::DecompressionFailed));
}
