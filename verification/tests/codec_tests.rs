use chara_card::codec::{decode, encode, Chunk, Container};
use chara_card::errors::ConvertError;

fn chunk(tag: &[u8], data: &[u8]) -> Chunk {
    Chunk { tag: tag.to_vec(), data: data.to_vec() }
}

fn sample_container() -> Container {
    Container {
        chunks: vec![
            chunk(b"IHDR", &[0, 0, 0, 1, 0, 0, 0, 1, 8, 0, 0, 0, 0]),
            chunk(b"IDAT", &[1, 2, 3, 4, 5]),
            chunk(b"IEND", &[]),
        ],
    }
}

#[test]
fn round_trip_yields_same_chunks() {
    let c = sample_container();
    let bytes = encode(&c);
    let back = decode(&bytes).expect("round trip must decode");
    assert_eq!(back.chunks.len(), 3);
    for (a, b) in c.chunks.iter().zip(back.chunks.iter()) {
        assert_eq!(a.tag, b.tag);
        assert_eq!(a.data, b.data);
    }
}

#[test]
fn round_trip_empty_chunk_list() {
    let c = Container { chunks: vec![] };
    let bytes = encode(&c);
    assert_eq!(bytes, vec![137, 80, 78, 71, 13, 10, 26, 10]);
    let back = decode(&bytes).expect("a bare signature decodes");
    assert_eq!(back.chunks.len(), 0);
}

#[test]
fn wire_layout_is_exact() {
    let c = Container { chunks: vec![chunk(b"tEXt", b"hi")] };
    let bytes = encode(&c);
    // signature, 4-byte BE length, tag, data, 4-byte BE checksum
    assert_eq!(&bytes[0..8], &[137, 80, 78, 71, 13, 10, 26, 10]);
    assert_eq!(&bytes[8..12], &[0, 0, 0, 2]);
    assert_eq!(&bytes[12..16], b"tEXt");
    assert_eq!(&bytes[16..18], b"hi");
    let crc = crc32fast::hash(b"tEXthi");
    assert_eq!(&bytes[18..22], &crc.to_be_bytes());
}

#[test]
fn bad_signature_rejected() {
    let c = sample_container();
    let mut bytes = encode(&c);
    bytes[0] = 0;
    assert!(matches!(decode(&bytes), Err(ConvertError::SignatureError)));
}

#[test]
fn short_buffer_rejected_as_signature() {
    assert!(matches!(decode(&[137, 80, 78]), Err(ConvertError::SignatureError)));
    assert!(matches!(decode(&[]), Err(ConvertError::SignatureError)));
}

#[test]
fn every_bit_flip_in_tag_or_data_fails_checksum() {
    let c = Container { chunks: vec![chunk(b"IDAT", &[9, 8, 7]), chunk(b"IEND", &[])] };
    let bytes = encode(&c);
    // first record: length at 8..12, tag at 12..16, data at 16..19
    for pos in 12..19 {
        for bit in 0..8 {
            let mut bad = bytes.clone();
            bad[pos] ^= 1 << bit;
            match decode(&bad) {
                Err(ConvertError::ChecksumError(tag)) => {
                    let mut expected = b"IDAT".to_vec();
                    if pos < 16 {
                        expected[pos - 12] ^= 1 << bit;
                    }
                    assert_eq!(tag, expected);
                },
                other => panic!("flip at {pos} bit {bit} must fail the checksum, got {other:?}"),
            }
        }
    }
}

#[test]
fn truncated_tail_rejected() {
    let c = sample_container();
    let mut bytes = encode(&c);
    bytes.pop();
    assert!(matches!(decode(&bytes), Err(ConvertError::TruncatedError)));
}

#[test]
fn partial_record_rejected() {
    // signature then a length field promising more bytes than remain
    let mut bytes = vec![137, 80, 78, 71, 13, 10, 26, 10];
    bytes.extend_from_slice(&[0, 0, 0, 9, b'I', b'D', b'A', b'T', 1, 2]);
    assert!(matches!(decode(&bytes), Err(ConvertError::TruncatedError)));
}
