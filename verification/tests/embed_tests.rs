use chara_card::codec::{Chunk, Container};
use chara_card::embed::{embed, is_terminal_tag, is_text_tag};

fn chunk(tag: &[u8], data: &[u8]) -> Chunk {
    Chunk { tag: tag.to_vec(), data: data.to_vec() }
}

fn base() -> Container {
    Container {
        chunks: vec![
            chunk(b"IHDR", &[1, 2, 3]),
            chunk(b"tEXt", b"stale metadata"),
            chunk(b"IDAT", &[4, 5]),
            chunk(b"IEND", &[]),
        ],
    }
}

#[test]
fn embed_inserts_before_terminal() {
    let out = embed(base(), b"chara\0AAAA".to_vec());
    let tags: Vec<&[u8]> = out.chunks.iter().map(|c| c.tag.as_slice()).collect();
    assert_eq!(tags, vec![&b"IHDR"[..], &b"IDAT"[..], &b"tEXt"[..], &b"IEND"[..]]);
    assert_eq!(out.chunks[2].data, b"chara\0AAAA".to_vec());
}

#[test]
fn embed_drops_stale_metadata() {
    let out = embed(base(), b"fresh".to_vec());
    let text_chunks: Vec<&Chunk> =
        out.chunks.iter().filter(|c| c.tag == b"tEXt".to_vec()).collect();
    assert_eq!(text_chunks.len(), 1);
    assert_eq!(text_chunks[0].data, b"fresh".to_vec());
}

#[test]
fn embed_twice_keeps_exactly_one_metadata_chunk() {
    let once = embed(base(), b"first payload".to_vec());
    let twice = embed(once, b"second payload".to_vec());
    let text_chunks: Vec<&Chunk> =
        twice.chunks.iter().filter(|c| c.tag == b"tEXt".to_vec()).collect();
    assert_eq!(text_chunks.len(), 1);
    assert_eq!(text_chunks[0].data, b"second payload".to_vec());
    // and it equals embedding the second payload directly
    let direct = embed(base(), b"second payload".to_vec());
    assert_eq!(twice.chunks.len(), direct.chunks.len());
    for (a, b) in twice.chunks.iter().zip(direct.chunks.iter()) {
        assert_eq!(a.tag, b.tag);
        assert_eq!(a.data, b.data);
    }
}

#[test]
fn embed_keeps_terminal_last() {
    let out = embed(base(), vec![1, 2, 3]);
    assert_eq!(out.chunks.last().unwrap().tag, b"IEND".to_vec());
}

#[test]
fn tag_predicates() {
    assert!(is_text_tag(&b"tEXt".to_vec()));
    assert!(!is_text_tag(&b"tExt".to_vec()));
    assert!(!is_text_tag(&b"IEND".to_vec()));
    assert!(is_terminal_tag(&b"IEND".to_vec()));
    assert!(!is_terminal_tag(&b"IDAT".to_vec()));
}
