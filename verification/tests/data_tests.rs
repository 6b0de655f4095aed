//! Tile-layer data pipeline tests: CSV scanning, base64 decoding, zlib and
//! gzip decompression, and the little-endian word reinterpretation.

use std::io::Write;

use tiled_loader::{Data, DataCompression, DataEncoding, TmxError};

fn le_bytes(gids: &[u32]) -> Vec<u8> {
    let mut bytes = Vec::new();
    for g in gids {
        bytes.extend_from_slice(&g.to_le_bytes());
    }
    bytes
}

#[test]
fn csv_example_end_to_end() {
    let data = Data::from_text(
        DataEncoding::CSV,
        DataCompression::Uncompressed,
        b"1,2,3,4,\n5,6,7,8",
    )
    .unwrap();
    assert_eq!(data.tile_gids, vec![1, 2, 3, 4, 5, 6, 7, 8]);
    assert_eq!(data.encoding, DataEncoding::CSV);
    assert_eq!(data.compression, DataCompression::Uncompressed);
}

#[test]
fn csv_ignores_separators_and_junk() {
    let data = Data::from_text(
        DataEncoding::CSV,
        DataCompression::Uncompressed,
        b"  12 ;; 0034\nx7",
    )
    .unwrap();
    assert_eq!(data.tile_gids, vec![12, 34, 7]);
}

#[test]
fn csv_empty_text_gives_no_gids() {
    let data = Data::from_text(DataEncoding::CSV, DataCompression::Uncompressed, b"").unwrap();
    assert_eq!(data.tile_gids, Vec::<u32>::new());
}

#[test]
fn csv_u32_boundary() {
    let data = Data::from_text(
        DataEncoding::CSV,
        DataCompression::Uncompressed,
        b"4294967295",
    )
    .unwrap();
    assert_eq!(data.tile_gids, vec![4294967295]);
    let err = Data::from_text(
        DataEncoding::CSV,
        DataCompression::Uncompressed,
        b"4294967296",
    )
    .unwrap_err();
    assert_eq!(err, TmxError::MalformedTileData);
}

#[test]
fn csv_round_trip_render() {
    let gids: Vec<u32> = vec![0, 1, 42, 4294967295, 10, 999];
    let text = Data::render_csv(&gids);
    assert_eq!(text, b"0,1,42,4294967295,10,999".to_vec());
    let data = Data::from_text(DataEncoding::CSV, DataCompression::Uncompressed, &text).unwrap();
    assert_eq!(data.tile_gids, gids);
}

#[test]
fn csv_with_compression_is_incompatible() {
    let err = Data::from_text(DataEncoding::CSV, DataCompression::Zlib, b"1,2,3").unwrap_err();
    assert_eq!(err, TmxError::IncompatibleEncodingCompression);
    let err = Data::from_text(DataEncoding::CSV, DataCompression::Gzip, b"1,2,3").unwrap_err();
    assert_eq!(err, TmxError::IncompatibleEncodingCompression);
}

#[test]
fn base64_plain_decodes_le_words() {
    // [1, 2] packed little-endian, base64-encoded by hand.
    let data = Data::from_text(
        DataEncoding::Base64,
        DataCompression::Uncompressed,
        b"AQAAAAIAAAA=",
    )
    .unwrap();
    assert_eq!(data.tile_gids, vec![1, 2]);
}

#[test]
fn base64_trims_surrounding_whitespace() {
    let data = Data::from_text(
        DataEncoding::Base64,
        DataCompression::Uncompressed,
        b"\n   AQAAAAIAAAA=  \r\n",
    )
    .unwrap();
    assert_eq!(data.tile_gids, vec![1, 2]);
}

#[test]
fn base64_invalid_text_is_encoding_error() {
    let err = Data::from_text(
        DataEncoding::Base64,
        DataCompression::Uncompressed,
        b"!!!not base64!!!",
    )
    .unwrap_err();
    assert_eq!(err, TmxError::EncodingError);
}

#[test]
fn base64_zlib_round_trip_through_pipeline() {
    let gids: Vec<u32> = vec![1, 2, 3, 4, 0x12345678];
    let bytes = le_bytes(&gids);
    let mut enc = flate2::write::ZlibEncoder::new(Vec::new(), flate2::Compression::default());
    enc.write_all(&bytes).unwrap();
    let compressed = enc.finish().unwrap();
    let text = base64::encode(&compressed);
    let data = Data::from_text(DataEncoding::Base64, DataCompression::Zlib, text.as_bytes())
        .unwrap();
    assert_eq!(data.tile_gids, gids);
}

#[test]
fn base64_gzip_round_trip_through_pipeline() {
    let gids: Vec<u32> = vec![7, 0, 4294967295];
    let bytes = le_bytes(&gids);
    let mut enc = flate2::write::GzEncoder::new(Vec::new(), flate2::Compression::default());
    enc.write_all(&bytes).unwrap();
    let compressed = enc.finish().unwrap();
    let text = base64::encode(&compressed);
    let data = Data::from_text(DataEncoding::Base64, DataCompression::Gzip, text.as_bytes())
        .unwrap();
    assert_eq!(data.tile_gids, gids);
}

#[test]
fn encode_tile_data_round_trips_all_compressions() {
    let gids: Vec<u32> = vec![9, 8, 7, 6, 5, 0, 1000000];
    for comp in [
        DataCompression::Uncompressed,
        DataCompression::Zlib,
        DataCompression::Gzip,
    ] {
        let text = Data::encode_tile_data(&gids, comp);
        let data = Data::from_text(DataEncoding::Base64, comp, &text).unwrap();
        assert_eq!(data.tile_gids, gids);
    }
}

#[test]
fn truncated_payload_is_rejected() {
    // Six bytes is not a whole number of 32-bit words.
    let text = base64::encode([1u8, 2, 3, 4, 5, 6]);
    let err = Data::from_text(
        DataEncoding::Base64,
        DataCompression::Uncompressed,
        text.as_bytes(),
    )
    .unwrap_err();
    assert_eq!(err, TmxError::TruncatedTileData);
}

#[test]
fn truncated_payload_after_decompression_is_rejected() {
    let mut enc = flate2::write::ZlibEncoder::new(Vec::new(), flate2::Compression::default());
    enc.write_all(&[1u8, 2, 3, 4, 5, 6]).unwrap();
    let text = base64::encode(&enc.finish().unwrap());
    let err = Data::from_text(DataEncoding::Base64, DataCompression::Zlib, text.as_bytes())
        .unwrap_err();
    assert_eq!(err, TmxError::TruncatedTileData);
}

#[test]
fn malformed_zlib_stream_is_decompression_error() {
    let text = base64::encode([0u8, 1, 2, 3]);
    let err = Data::from_text(DataEncoding::Base64, DataCompression::Zlib, text.as_bytes())
        .unwrap_err();
    assert_eq!(err, TmxError::DecompressionError);
}

#[test]
fn malformed_gzip_stream_is_decompression_error() {
    let text = base64::encode([0u8, 1, 2, 3]);
    let err = Data::from_text(DataEncoding::Base64, DataCompression::Gzip, text.as_bytes())
        .unwrap_err();
    assert_eq!(err, TmxError::DecompressionError);
}

#[test]
fn text_under_inline_encoding_is_rejected() {
    let err = Data::from_text(DataEncoding::XML, DataCompression::Uncompressed, b"1,2")
        .unwrap_err();
    assert_eq!(err, TmxError::UnexpectedTextData);
}

#[test]
fn inline_tiles_keep_order_and_reject_compression() {
    let data = Data::from_tiles(
        DataEncoding::XML,
        DataCompression::Uncompressed,
        vec![3, 1, 2],
    )
    .unwrap();
    assert_eq!(data.tile_gids, vec![3, 1, 2]);
    let err = Data::from_tiles(DataEncoding::XML, DataCompression::Zlib, vec![3, 1, 2])
        .unwrap_err();
    assert_eq!(err, TmxError::IncompatibleEncodingCompression);
}

#[test]
fn empty_data_has_no_gids() {
    let data = Data::empty(DataEncoding::Base64, DataCompression::Zlib);
    assert_eq!(data.tile_gids, Vec::<u32>::new());
    assert_eq!(data.encoding, DataEncoding::Base64);
    assert_eq!(data.compression, DataCompression::Zlib);
}

#[test]
fn encoding_tags_resolve() {
    assert_eq!(
        DataEncoding::from_tag(Some("base64")).unwrap(),
        DataEncoding::Base64
    );
    assert_eq!(DataEncoding::from_tag(Some("csv")).unwrap(), DataEncoding::CSV);
    assert_eq!(DataEncoding::from_tag(None).unwrap(), DataEncoding::XML);
    let err = DataEncoding::from_tag(Some("hex")).unwrap_err();
    assert_eq!(err, TmxError::UnknownEncoding("hex".to_string()));
}

#[test]
fn compression_tags_resolve() {
    assert_eq!(
        DataCompression::from_tag(Some("zlib")).unwrap(),
        DataCompression::Zlib
    );
    assert_eq!(
        DataCompression::from_tag(Some("gzip")).unwrap(),
        DataCompression::Gzip
    );
    assert_eq!(
        DataCompression::from_tag(None).unwrap(),
        DataCompression::Uncompressed
    );
    let err = DataCompression::from_tag(Some("lz4")).unwrap_err();
    assert_eq!(err, TmxError::UnknownCompression("lz4".to_string()));
}
