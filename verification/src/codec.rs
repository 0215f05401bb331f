use vstd::prelude::*;
use crate::binary::{be_u32_of, be_bytes_of_u32, read_be_u32, push_be_u32, append_bytes, copy_range};
use crate::errors::{ConvertError, ErrorModel};

verus! {

/// One length-tagged, checksummed record of the container.
#[derive(Debug)]
pub struct Chunk {
    pub tag: Vec<u8>,
    pub data: Vec<u8>,
}

/// The mathematical image of a `Chunk`.
#[verifier::ext_equal]
pub struct ChunkModel {
    pub tag: Seq<u8>,
    pub data: Seq<u8>,
}

impl View for Chunk {
    type V = ChunkModel;

    open spec fn view(&self) -> ChunkModel {
        ChunkModel { tag: self.tag@, data: self.data@ }
    }
}

/// A chunk that the codec can write back: a four-byte tag and data whose
/// length fits the four-byte length field.
pub open spec fn chunk_wf(c: ChunkModel) -> bool {
    &&& c.tag.len() == 4
    &&& c.data.len() <= 0xFFFF_FFFF
}

/// An ordered chunk sequence, preceded on the wire by the fixed signature.
#[derive(Debug)]
pub struct Container {
    pub chunks: Vec<Chunk>,
}

impl View for Container {
    type V = Seq<ChunkModel>;

    open spec fn view(&self) -> Seq<ChunkModel> {
        self.chunks@.map_values(|c: Chunk| c@)
    }
}

pub open spec fn container_wf(cs: Seq<ChunkModel>) -> bool {
    forall|i: int| 0 <= i < cs.len() ==> chunk_wf(#[trigger] cs[i])
}

/// The fixed eight-byte signature that opens every container.
pub open spec fn signature() -> Seq<u8> {
    seq![137u8, 80u8, 78u8, 71u8, 13u8, 10u8, 26u8, 10u8]
}

/// The checksum written after each chunk, over its tag followed by its data.
pub uninterp spec fn crc32_of(data: Seq<u8>) -> u32;

/// Relies on crc32fast::hash: the CRC-32 checksum is a function of the bytes
/// alone.
#[verifier::external_body]
fn crc32(data: &Vec<u8>) -> (r: u32)
    ensures
        r == crc32_of(data@),
{
    crc32fast::hash(data.as_slice())
}

/// What decoding the bytes after the signature yields: the chunk sequence, or
/// the first failure. Each record is a big-endian length, a four-byte tag,
/// the data, and a big-endian checksum over tag and data.
pub open spec fn spec_decode_chunks(s: Seq<u8>) -> Result<Seq<ChunkModel>, ErrorModel>
    decreases s.len(),
{
    if s.len() == 0 {
        Ok(Seq::empty())
    } else if s.len() < 12 {
        Err(ErrorModel::Truncated)
    } else {
        let n = be_u32_of(s.subrange(0, 4));
        if s.len() < 12 + n {
            Err(ErrorModel::Truncated)
        } else {
            let tag = s.subrange(4, 8);
            let data = s.subrange(8, 8 + n);
            let crc = be_u32_of(s.subrange(8 + n, 12 + n));
            if crc != crc32_of(tag + data) as int {
                Err(ErrorModel::Checksum(tag))
            } else {
                match spec_decode_chunks(s.skip(12 + n)) {
                    Ok(rest) => Ok(seq![ChunkModel { tag, data }] + rest),
                    Err(e) => Err(e),
                }
            }
        }
    }
}

/// What decoding a whole buffer yields: `Signature` unless the buffer opens
/// with the fixed signature, then the chunk records until the buffer ends.
pub open spec fn spec_decode(s: Seq<u8>) -> Result<Seq<ChunkModel>, ErrorModel> {
    if s.len() < 8 || s.subrange(0, 8) != signature() {
        Err(ErrorModel::Signature)
    } else {
        spec_decode_chunks(s.skip(8))
    }
}

/// The wire form of one chunk.
pub open spec fn spec_encode_chunk(c: ChunkModel) -> Seq<u8> {
    be_bytes_of_u32(c.data.len() as int) + c.tag + c.data + be_bytes_of_u32(
        crc32_of(c.tag + c.data) as int,
    )
}

pub open spec fn spec_encode_chunks(cs: Seq<ChunkModel>) -> Seq<u8>
    decreases cs.len(),
{
    if cs.len() == 0 {
        Seq::empty()
    } else {
        spec_encode_chunk(cs[0]) + spec_encode_chunks(cs.skip(1))
    }
}

/// The wire form of a whole container.
pub open spec fn spec_encode(cs: Seq<ChunkModel>) -> Seq<u8> {
    signature() + spec_encode_chunks(cs)
}

/// Glues a decoded prefix onto the outcome for the remaining bytes.
pub open spec fn prepend_chunks(pre: Seq<ChunkModel>, r: Result<Seq<ChunkModel>, ErrorModel>) -> Result<
    Seq<ChunkModel>,
    ErrorModel,
> {
    match r {
        Ok(cs) => Ok(pre + cs),
        Err(e) => Err(e),
    }
}

/// Parses a buffer into a container, exactly as `spec_decode` says: the
/// signature is checked first, then every record's checksum; a partial record
/// at the end of the buffer is refused.
pub fn decode(data: &[u8]) -> (r: Result<Container, ConvertError>)
    ensures
        r matches Ok(c) ==> spec_decode(data@) == Ok::<_, ErrorModel>(c@) && container_wf(c@),
        r matches Err(e) ==> spec_decode(data@) == Err::<Seq<ChunkModel>, _>(e@),
{
    if data.len() < 8 {
        return Err(ConvertError::SignatureError);
    }
    let sig_ok = data[0] == 137 && data[1] == 80 && data[2] == 78 && data[3] == 71 && data[4] == 13
        && data[5] == 10 && data[6] == 26 && data[7] == 10;
    proof {
        let s = data@.subrange(0, 8);
        assert(s[0] == data@[0] && s[1] == data@[1] && s[2] == data@[2] && s[3] == data@[3] && s[4]
            == data@[4] && s[5] == data@[5] && s[6] == data@[6] && s[7] == data@[7]);
    }
    if !sig_ok {
        return Err(ConvertError::SignatureError);
    }
    proof {
        assert(data@.subrange(0, 8) =~= signature());
    }
    let ghost whole = data@.skip(8);
    let mut chunks: Vec<Chunk> = Vec::new();
    let mut pos: usize = 8;
    while pos < data.len()
        invariant
            8 <= pos <= data@.len(),
            data@.subrange(0, 8) == signature(),
            spec_decode(data@) == spec_decode_chunks(whole),
            spec_decode_chunks(whole) == prepend_chunks(
                chunks@.map_values(|c: Chunk| c@),
                spec_decode_chunks(data@.skip(pos as int)),
            ),
            container_wf(chunks@.map_values(|c: Chunk| c@)),
            whole == data@.skip(8),
        decreases data@.len() - pos,
    {
        let ghost acc = chunks@.map_values(|c: Chunk| c@);
        let ghost t = data@.skip(pos as int);
        assert(t.len() == data@.len() - pos);
        let remaining = data.len() - pos;
        if remaining < 12 {
            proof {
                assert(spec_decode_chunks(t) == Err::<Seq<ChunkModel>, _>(ErrorModel::Truncated));
            }
            return Err(ConvertError::TruncatedError);
        }
        let n32 = read_be_u32(data, pos);
        let n = n32 as usize;
        proof {
            assert(t.subrange(0, 4) =~= data@.subrange(pos as int, pos as int + 4));
            assert(n as int == be_u32_of(t.subrange(0, 4)));
        }
        if n > remaining - 12 {
            proof {
                assert(t.len() < 12 + n);
                assert(spec_decode_chunks(t) == Err::<Seq<ChunkModel>, _>(ErrorModel::Truncated));
            }
            return Err(ConvertError::TruncatedError);
        }
        let tag = copy_range(data, pos + 4, pos + 8);
        let cdata = copy_range(data, pos + 8, pos + 8 + n);
        let stored = read_be_u32(data, pos + 8 + n);
        proof {
            assert(tag@ =~= t.subrange(4, 8));
            assert(cdata@ =~= t.subrange(8, 8 + n));
            assert(t.subrange(8 + n, 12 + n) =~= data@.subrange(
                pos + 8 + n,
                pos + 12 + n,
            ));
            assert(stored as int == be_u32_of(t.subrange(8 + n, 12 + n)));
        }
        let mut tag_and_data: Vec<u8> = Vec::new();
        append_bytes(&mut tag_and_data, tag.as_slice());
        append_bytes(&mut tag_and_data, cdata.as_slice());
        assert(tag_and_data@ == tag@ + cdata@);
        let computed = crc32(&tag_and_data);
        if stored != computed {
            proof {
                assert(spec_decode_chunks(t) == Err::<Seq<ChunkModel>, _>(
                    ErrorModel::Checksum(tag@),
                ));
            }
            return Err(ConvertError::ChecksumError(tag));
        }
        let ghost model = ChunkModel { tag: tag@, data: cdata@ };
        chunks.push(Chunk { tag, data: cdata });
        proof {
            assert(chunks@.map_values(|c: Chunk| c@) =~= acc.push(model));
            assert(t.skip(12 + n) =~= data@.skip(pos as int + 12 + n));
            assert(spec_decode_chunks(t) == prepend_chunks(
                seq![model],
                spec_decode_chunks(t.skip(12 + n)),
            ));
            assert forall|rest: Seq<ChunkModel>|
                prepend_chunks(acc, Ok(seq![model] + rest)) == prepend_chunks(
                    acc.push(model),
                    Ok(rest),
                ) by {
                assert(acc + (seq![model] + rest) =~= acc.push(model) + rest);
            }
        }
        pos = pos + 12 + n;
    }
    proof {
        assert(data@.skip(pos as int).len() == 0);
        assert(spec_decode_chunks(data@.skip(pos as int)) == Ok::<_, ErrorModel>(
            Seq::<ChunkModel>::empty(),
        ));
        assert(chunks@.map_values(|c: Chunk| c@) + Seq::<ChunkModel>::empty() =~= chunks@.map_values(
            |c: Chunk| c@,
        ));
    }
    Ok(Container { chunks })
}

/// Writes a container back to bytes, exactly as `spec_encode` says: the
/// signature, then each chunk's length, tag, data and freshly computed
/// checksum.
pub fn encode(c: &Container) -> (r: Vec<u8>)
    requires
        container_wf(c@),
    ensures
        r@ == spec_encode(c@),
{
    let mut out: Vec<u8> = Vec::new();
    out.push(137);
    out.push(80);
    out.push(78);
    out.push(71);
    out.push(13);
    out.push(10);
    out.push(26);
    out.push(10);
    proof {
        assert(out@ =~= signature());
        assert(c@.skip(0) =~= c@);
    }
    let ghost models = c@;
    let n_chunks = c.chunks.len();
    let mut i: usize = 0;
    while i < n_chunks
        invariant
            0 <= i <= n_chunks,
            n_chunks == c.chunks@.len(),
            models == c@,
            container_wf(models),
            out@ == signature() + spec_encode_chunks(models.take(i as int)),
        decreases n_chunks - i,
    {
        let ghost before = out@;
        let ch: &Chunk = &c.chunks[i];
        proof {
            assert(models[i as int] == ch@);
            assert(chunk_wf(models[i as int]));
        }
        let len32 = ch.data.len() as u32;
        push_be_u32(&mut out, len32);
        append_bytes(&mut out, ch.tag.as_slice());
        append_bytes(&mut out, ch.data.as_slice());
        let mut tag_and_data: Vec<u8> = Vec::new();
        append_bytes(&mut tag_and_data, ch.tag.as_slice());
        append_bytes(&mut tag_and_data, ch.data.as_slice());
        assert(tag_and_data@ == ch@.tag + ch@.data);
        let crc = crc32(&tag_and_data);
        push_be_u32(&mut out, crc);
        proof {
            assert(out@ =~= before + spec_encode_chunk(models[i as int]));
            lemma_encode_chunks_take_step(models, i as int);
            assert(out@ =~= signature() + spec_encode_chunks(models.take(i as int + 1)));
        }
        i = i + 1;
    }
    proof {
        assert(models.take(n_chunks as int) =~= models);
    }
    out
}

/// Law: a buffer that does not open with the fixed eight-byte signature
/// decodes to `Signature`, whatever follows.
pub proof fn lemma_signature_enforced(s: Seq<u8>)
    requires
        s.len() < 8 || s.subrange(0, 8) != signature(),
    ensures
        spec_decode(s) == Err::<Seq<ChunkModel>, ErrorModel>(ErrorModel::Signature),
{
}

/// Law: decoding the wire form of any well-formed chunk sequence yields the
/// sequence back.
pub proof fn lemma_round_trip(cs: Seq<ChunkModel>)
    requires
        container_wf(cs),
    ensures
        spec_decode(spec_encode(cs)) == Ok::<_, ErrorModel>(cs),
{
    let s = spec_encode(cs);
    assert(s.subrange(0, 8) =~= signature());
    assert(s.skip(8) =~= spec_encode_chunks(cs));
    lemma_decode_encode_chunks(cs);
}

/// Law: the converse round trip — whatever a buffer decodes to, encoding it
/// writes that very buffer back, so decode succeeds only on canonical wire
/// forms.
pub proof fn lemma_decode_inverse(s: Seq<u8>, cs: Seq<ChunkModel>)
    requires
        spec_decode(s) == Ok::<_, ErrorModel>(cs),
    ensures
        spec_encode(cs) == s,
{
    assert(s.len() >= 8 && s.subrange(0, 8) == signature());
    lemma_decode_chunks_inverse(s.skip(8), cs);
    assert(signature() + s.skip(8) =~= s);
}

#[verifier::rlimit(100)]
#[verifier::spinoff_prover]
proof fn lemma_decode_chunks_inverse(s: Seq<u8>, cs: Seq<ChunkModel>)
    requires
        spec_decode_chunks(s) == Ok::<_, ErrorModel>(cs),
    ensures
        spec_encode_chunks(cs) == s,
    decreases s.len(),
{
    if s.len() == 0 {
        assert(cs =~= Seq::<ChunkModel>::empty());
        assert(spec_encode_chunks(cs) =~= s);
    } else {
        assert(s.len() >= 12);
        let n = be_u32_of(s.subrange(0, 4));
        crate::binary::lemma_be_u32_bytes_round_trip(s.subrange(0, 4));
        assert(s.len() >= 12 + n);
        let tag = s.subrange(4, 8);
        let data = s.subrange(8, 8 + n);
        let rest = s.skip(12 + n);
        let c0 = ChunkModel { tag, data };
        assert(be_u32_of(s.subrange(8 + n, 12 + n)) == crc32_of(tag + data) as int);
        if spec_decode_chunks(rest) is Ok {
            let r = spec_decode_chunks(rest)->Ok_0;
            assert(cs == seq![c0] + r);
            assert(cs.skip(1) =~= r);
            assert(cs[0] == c0);
            lemma_decode_chunks_inverse(rest, cs.skip(1));
            assert(data.len() == n);
            assert(be_bytes_of_u32(c0.data.len() as int) == s.subrange(0, 4));
            crate::binary::lemma_be_u32_bytes_round_trip(s.subrange(8 + n, 12 + n));
            assert(be_bytes_of_u32(crc32_of(c0.tag + c0.data) as int) == s.subrange(8 + n, 12 + n));
            assert(spec_encode_chunk(c0) == s.subrange(0, 4) + s.subrange(4, 8) + s.subrange(
                8,
                8 + n,
            ) + s.subrange(8 + n, 12 + n));
            assert(spec_encode_chunks(cs) == spec_encode_chunk(c0) + rest);
            assert(s.subrange(0, 4) + s.subrange(4, 8) + s.subrange(8, 8 + n) + s.subrange(
                8 + n,
                12 + n,
            ) + rest =~= s);
        } else {
            assert(false);
        }
    }
}

#[verifier::rlimit(100)]
#[verifier::spinoff_prover]
proof fn lemma_decode_encode_chunks(cs: Seq<ChunkModel>)
    requires
        container_wf(cs),
    ensures
        spec_decode_chunks(spec_encode_chunks(cs)) == Ok::<_, ErrorModel>(cs),
    decreases cs.len(),
{
    if cs.len() == 0 {
        assert(spec_encode_chunks(cs).len() == 0);
        assert(cs =~= Seq::<ChunkModel>::empty());
    } else {
        let c0 = cs[0];
        assert(chunk_wf(c0));
        let n = c0.data.len() as int;
        let crc = crc32_of(c0.tag + c0.data) as int;
        let enc0 = spec_encode_chunk(c0);
        let rest = spec_encode_chunks(cs.skip(1));
        let s = spec_encode_chunks(cs);
        assert(s == enc0 + rest);
        crate::binary::lemma_be_u32_round_trip(n);
        crate::binary::lemma_be_u32_round_trip(crc);
        assert(enc0.len() == 12 + n);
        assert(s.subrange(0, 4) =~= be_bytes_of_u32(n));
        assert(be_u32_of(s.subrange(0, 4)) == n);
        assert(s.subrange(4, 8) =~= c0.tag);
        assert(s.subrange(8, 8 + n) =~= c0.data);
        assert(s.subrange(8 + n, 12 + n) =~= be_bytes_of_u32(crc));
        assert(be_u32_of(s.subrange(8 + n, 12 + n)) == crc);
        assert(s.skip(12 + n) =~= rest);
        assert(container_wf(cs.skip(1))) by {
            assert forall|i: int| 0 <= i < cs.skip(1).len() implies chunk_wf(
                #[trigger] cs.skip(1)[i],
            ) by {
                assert(cs.skip(1)[i] == cs[i + 1]);
            }
        }
        lemma_decode_encode_chunks(cs.skip(1));
        assert(spec_decode_chunks(s) == Ok::<_, ErrorModel>(
            seq![ChunkModel { tag: c0.tag, data: c0.data }] + cs.skip(1),
        ));
        assert(ChunkModel { tag: c0.tag, data: c0.data } == c0);
        assert(seq![c0] + cs.skip(1) =~= cs);
    }
}

/// Appending one chunk to a prefix extends its wire form by that chunk's.
proof fn lemma_encode_chunks_take_step(cs: Seq<ChunkModel>, i: int)
    requires
        0 <= i < cs.len(),
    ensures
        spec_encode_chunks(cs.take(i + 1)) == spec_encode_chunks(cs.take(i)) + spec_encode_chunk(
            cs[i],
        ),
    decreases i,
{
    if i == 0 {
        assert(cs.take(0) =~= Seq::<ChunkModel>::empty());
        assert(spec_encode_chunks(Seq::<ChunkModel>::empty()) == Seq::<u8>::empty());
        assert(cs.take(1) =~= seq![cs[0]]);
        assert(seq![cs[0]].skip(1) =~= Seq::<ChunkModel>::empty());
        assert(spec_encode_chunks(seq![cs[0]]) == spec_encode_chunk(seq![cs[0]][0])
            + spec_encode_chunks(seq![cs[0]].skip(1)));
        assert(seq![cs[0]][0] == cs[0]);
        assert(spec_encode_chunk(cs[0]) + Seq::<u8>::empty() =~= spec_encode_chunk(cs[0]));
        assert(Seq::<u8>::empty() + spec_encode_chunk(cs[0]) =~= spec_encode_chunk(cs[0]));
    } else {
        lemma_encode_chunks_take_step(cs.skip(1), i - 1);
        assert(cs.take(i + 1)[0] == cs[0]);
        assert(cs.take(i + 1).skip(1) =~= cs.skip(1).take(i));
        assert(cs.take(i).skip(1) =~= cs.skip(1).take(i - 1));
        assert(cs.skip(1)[i - 1] == cs[i]);
        assert(spec_encode_chunks(cs.take(i + 1)) == spec_encode_chunk(cs[0])
            + spec_encode_chunks(cs.skip(1).take(i)));
        assert(spec_encode_chunks(cs.take(i)) == spec_encode_chunk(cs[0]) + spec_encode_chunks(
            cs.skip(1).take(i - 1),
        ));
        assert(spec_encode_chunk(cs[0]) + (spec_encode_chunks(cs.skip(1).take(i - 1))
            + spec_encode_chunk(cs[i])) =~= (spec_encode_chunk(cs[0]) + spec_encode_chunks(
            cs.skip(1).take(i - 1),
        )) + spec_encode_chunk(cs[i]));
    }
}

}
