use chara_card::errors::ConvertError;
use chara_card::pixels::{encode_raw_image, normalize_raster, samples_to_be_bytes, uses_still_codec,
    ColorLayout, RawImage, SampleBuf};

#[test]
fn sixteen_bit_samples_split_big_endian() {
    let out = samples_to_be_bytes(&vec![0x1234, 0x00ff, 0xff00]);
    assert_eq!(out, vec![0x12, 0x34, 0x00, 0xff, 0xff, 0x00]);
}

#[test]
fn sixteen_bit_value_survives_the_round_trip() {
    // A synthetic 16-bit gray pixel 0x1234: the canonical output must hold
    // the swapped byte order, so a generic decoder yields 0x1234 back.
    let img = RawImage {
        layout: ColorLayout::Gray,
        width: 1,
        height: 1,
        samples: SampleBuf::Sixteen(vec![0x1234]),
    };
    let png = encode_raw_image(&img).expect("encodes");
    let decoded = image::load_from_memory(&png).expect("the canonical bytes decode");
    let gray = decoded.into_luma16();
    assert_eq!(gray.get_pixel(0, 0)[0], 0x1234);
}

#[test]
fn eight_bit_rgb_encodes_and_decodes() {
    let img = RawImage {
        layout: ColorLayout::Rgb,
        width: 2,
        height: 1,
        samples: SampleBuf::Eight(vec![255, 0, 0, 0, 0, 255]),
    };
    let png = encode_raw_image(&img).expect("encodes");
    let decoded = image::load_from_memory(&png).expect("decodes").into_rgb8();
    assert_eq!(decoded.get_pixel(0, 0).0, [255, 0, 0]);
    assert_eq!(decoded.get_pixel(1, 0).0, [0, 0, 255]);
}

#[test]
fn mismatched_geometry_is_a_decode_error() {
    let img = RawImage {
        layout: ColorLayout::Rgb,
        width: 4,
        height: 4,
        samples: SampleBuf::Eight(vec![1, 2, 3]),
    };
    assert!(matches!(encode_raw_image(&img), Err(ConvertError::DecodeError)));
}

#[test]
fn normalize_reencodes_a_recognized_raster() {
    let img = RawImage {
        layout: ColorLayout::Rgb,
        width: 1,
        height: 1,
        samples: SampleBuf::Eight(vec![10, 20, 30]),
    };
    let source = encode_raw_image(&img).expect("encodes");
    let normalized = normalize_raster(&source).expect("a container input normalizes");
    let decoded = image::load_from_memory(&normalized).expect("decodes").into_rgb8();
    assert_eq!(decoded.get_pixel(0, 0).0, [10, 20, 30]);
}

#[test]
fn normalize_unknown_bytes_is_unknown_format() {
    let junk = b"this is prose, not pixels".to_vec();
    assert!(matches!(normalize_raster(&junk), Err(ConvertError::UnknownFormatError)));
}

#[test]
fn normalize_corrupt_recognized_bytes_is_decode_error() {
    // the container signature makes the sniffer commit, then decoding fails
    let mut junk = vec![137, 80, 78, 71, 13, 10, 26, 10];
    junk.extend_from_slice(&[0; 16]);
    assert!(matches!(normalize_raster(&junk), Err(ConvertError::DecodeError)));
}

#[test]
fn still_codec_extension_is_detected() {
    assert!(uses_still_codec(&b"avif".to_vec()));
    assert!(!uses_still_codec(&b"png".to_vec()));
    assert!(!uses_still_codec(&b"jpg".to_vec()));
}
