use vstd::prelude::*;
use crate::codec::{Chunk, ChunkModel, Container, chunk_wf, container_wf};

verus! {

/// The tag of the auxiliary text-comment chunk that carries metadata.
pub open spec fn text_tag() -> Seq<u8> {
    seq![116u8, 69u8, 88u8, 116u8]
}

/// The tag of the terminal-marker chunk that must end every valid container.
pub open spec fn terminal_tag() -> Seq<u8> {
    seq![73u8, 69u8, 78u8, 68u8]
}

/// The chunk that carries an embeddable payload.
pub open spec fn metadata_chunk(payload: Seq<u8>) -> ChunkModel {
    ChunkModel { tag: text_tag(), data: payload }
}

/// The chunk sequence with every text-comment chunk removed.
pub open spec fn strip_text(cs: Seq<ChunkModel>) -> Seq<ChunkModel>
    decreases cs.len(),
{
    if cs.len() == 0 {
        Seq::empty()
    } else if cs[0].tag == text_tag() {
        strip_text(cs.skip(1))
    } else {
        seq![cs[0]] + strip_text(cs.skip(1))
    }
}

/// Only the text-comment chunks, in order.
pub open spec fn only_text(cs: Seq<ChunkModel>) -> Seq<ChunkModel>
    decreases cs.len(),
{
    if cs.len() == 0 {
        Seq::empty()
    } else if cs[0].tag == text_tag() {
        seq![cs[0]] + only_text(cs.skip(1))
    } else {
        only_text(cs.skip(1))
    }
}

/// What embedding yields: stale text-comment chunks dropped, the fresh
/// metadata chunk inserted immediately before the terminal chunk.
pub open spec fn spec_embed(cs: Seq<ChunkModel>, payload: Seq<u8>) -> Seq<ChunkModel> {
    let kept = strip_text(cs);
    kept.insert(kept.len() - 1, metadata_chunk(payload))
}

proof fn lemma_strip_concat(a: Seq<ChunkModel>, b: Seq<ChunkModel>)
    ensures
        strip_text(a + b) == strip_text(a) + strip_text(b),
    decreases a.len(),
{
    if a.len() == 0 {
        assert(a + b =~= b);
        assert(strip_text(a) + strip_text(b) =~= strip_text(b));
    } else {
        assert((a + b)[0] == a[0]);
        assert((a + b).skip(1) =~= a.skip(1) + b);
        lemma_strip_concat(a.skip(1), b);
        if a[0].tag == text_tag() {
        } else {
            assert(seq![a[0]] + (strip_text(a.skip(1)) + strip_text(b)) =~= (seq![a[0]]
                + strip_text(a.skip(1))) + strip_text(b));
        }
    }
}

proof fn lemma_only_concat(a: Seq<ChunkModel>, b: Seq<ChunkModel>)
    ensures
        only_text(a + b) == only_text(a) + only_text(b),
    decreases a.len(),
{
    if a.len() == 0 {
        assert(a + b =~= b);
        assert(only_text(a) + only_text(b) =~= only_text(b));
    } else {
        assert((a + b)[0] == a[0]);
        assert((a + b).skip(1) =~= a.skip(1) + b);
        lemma_only_concat(a.skip(1), b);
        if a[0].tag == text_tag() {
            assert(seq![a[0]] + (only_text(a.skip(1)) + only_text(b)) =~= (seq![a[0]] + only_text(
                a.skip(1),
            )) + only_text(b));
        }
    }
}

proof fn lemma_strip_non_text(cs: Seq<ChunkModel>)
    ensures
        forall|i: int|
            0 <= i < strip_text(cs).len() ==> (#[trigger] strip_text(cs)[i]).tag != text_tag(),
    decreases cs.len(),
{
    if cs.len() > 0 {
        lemma_strip_non_text(cs.skip(1));
        if cs[0].tag != text_tag() {
            assert forall|i: int| 0 <= i < strip_text(cs).len() implies (#[trigger] strip_text(
                cs,
            )[i]).tag != text_tag() by {
                if i > 0 {
                    assert(strip_text(cs)[i] == strip_text(cs.skip(1))[i - 1]);
                } else {
                    assert(strip_text(cs)[0] == cs[0]);
                }
            }
        } else {
            assert(strip_text(cs) == strip_text(cs.skip(1)));
            assert forall|i: int| 0 <= i < strip_text(cs).len() implies (#[trigger] strip_text(
                cs,
            )[i]).tag != text_tag() by {
                assert(strip_text(cs)[i] == strip_text(cs.skip(1))[i]);
            }
        }
    }
}

proof fn lemma_strip_identity(cs: Seq<ChunkModel>)
    requires
        forall|i: int| 0 <= i < cs.len() ==> (#[trigger] cs[i]).tag != text_tag(),
    ensures
        strip_text(cs) == cs,
    decreases cs.len(),
{
    if cs.len() > 0 {
        assert(cs[0].tag != text_tag());
        assert forall|i: int| 0 <= i < cs.skip(1).len() implies (#[trigger] cs.skip(1)[i]).tag
            != text_tag() by {
            assert(cs.skip(1)[i] == cs[i + 1]);
        }
        lemma_strip_identity(cs.skip(1));
        assert(seq![cs[0]] + cs.skip(1) =~= cs);
    }
}

proof fn lemma_only_text_empty(cs: Seq<ChunkModel>)
    requires
        forall|i: int| 0 <= i < cs.len() ==> (#[trigger] cs[i]).tag != text_tag(),
    ensures
        only_text(cs) == Seq::<ChunkModel>::empty(),
    decreases cs.len(),
{
    if cs.len() > 0 {
        assert forall|i: int| 0 <= i < cs.skip(1).len() implies (#[trigger] cs.skip(1)[i]).tag
            != text_tag() by {
            assert(cs.skip(1)[i] == cs[i + 1]);
        }
        lemma_only_text_empty(cs.skip(1));
    }
}

/// A sequence that ends in a chunk that is no text-comment chunk keeps that
/// chunk, last, through `strip_text`.
proof fn lemma_strip_last(cs: Seq<ChunkModel>)
    requires
        cs.len() > 0,
        cs.last().tag != text_tag(),
    ensures
        strip_text(cs).len() > 0,
        strip_text(cs).last() == cs.last(),
    decreases cs.len(),
{
    if cs.len() == 1 {
        assert(cs[0] == cs.last());
        assert(strip_text(cs.skip(1)) == Seq::<ChunkModel>::empty());
        assert((seq![cs[0]] + Seq::<ChunkModel>::empty()).last() == cs[0]);
    } else {
        assert(cs.skip(1).len() > 0);
        assert(cs.skip(1).last() == cs.last());
        lemma_strip_last(cs.skip(1));
        if cs[0].tag == text_tag() {
        } else {
            assert((seq![cs[0]] + strip_text(cs.skip(1))).last() == strip_text(cs.skip(1)).last());
        }
    }
}

proof fn lemma_strip_wf(cs: Seq<ChunkModel>)
    requires
        container_wf(cs),
    ensures
        container_wf(strip_text(cs)),
    decreases cs.len(),
{
    if cs.len() > 0 {
        assert(container_wf(cs.skip(1))) by {
            assert forall|i: int| 0 <= i < cs.skip(1).len() implies chunk_wf(
                #[trigger] cs.skip(1)[i],
            ) by {
                assert(cs.skip(1)[i] == cs[i + 1]);
            }
        }
        lemma_strip_wf(cs.skip(1));
        if cs[0].tag != text_tag() {
            assert(chunk_wf(cs[0]));
            assert forall|i: int| 0 <= i < strip_text(cs).len() implies chunk_wf(
                #[trigger] strip_text(cs)[i],
            ) by {
                if i > 0 {
                    assert(strip_text(cs)[i] == strip_text(cs.skip(1))[i - 1]);
                }
            }
        }
    }
}

/// The three pieces an embed is made of.
proof fn lemma_embed_split(cs: Seq<ChunkModel>, payload: Seq<u8>)
    requires
        cs.len() > 0,
        cs.last().tag == terminal_tag(),
    ensures
        strip_text(cs).len() > 0,
        spec_embed(cs, payload) == strip_text(cs).take(strip_text(cs).len() - 1) + seq![
            metadata_chunk(payload),
        ] + strip_text(cs).skip(strip_text(cs).len() - 1),
{
    assert(terminal_tag()[0] == 73 && text_tag()[0] == 116);
    assert(cs.last().tag != text_tag());
    lemma_strip_last(cs);
    let kept = strip_text(cs);
    let k = kept.len() as int;
    assert(kept.insert(k - 1, metadata_chunk(payload)) =~= kept.take(k - 1) + seq![
        metadata_chunk(payload),
    ] + kept.skip(k - 1));
}

/// Law: after an embed there is exactly one text-comment chunk, and it
/// carries the payload that was embedded.
pub proof fn lemma_embed_single_metadata(cs: Seq<ChunkModel>, payload: Seq<u8>)
    requires
        cs.len() > 0,
        cs.last().tag == terminal_tag(),
    ensures
        only_text(spec_embed(cs, payload)) == seq![metadata_chunk(payload)],
{
    lemma_embed_split(cs, payload);
    lemma_strip_non_text(cs);
    let kept = strip_text(cs);
    let k = kept.len() as int;
    let front = kept.take(k - 1);
    let back = kept.skip(k - 1);
    let mid = seq![metadata_chunk(payload)];
    lemma_only_concat(front + mid, back);
    lemma_only_concat(front, mid);
    assert forall|i: int| 0 <= i < front.len() implies (#[trigger] front[i]).tag != text_tag() by {
        assert(front[i] == kept[i]);
    }
    assert forall|i: int| 0 <= i < back.len() implies (#[trigger] back[i]).tag != text_tag() by {
        assert(back[i] == kept[i + k - 1]);
    }
    lemma_only_text_empty(front);
    lemma_only_text_empty(back);
    assert(mid[0] == metadata_chunk(payload) && mid[0].tag == text_tag());
    assert(mid.skip(1) =~= Seq::<ChunkModel>::empty());
    assert(only_text(Seq::<ChunkModel>::empty()) == Seq::<ChunkModel>::empty());
    assert(only_text(mid) == seq![mid[0]] + only_text(mid.skip(1)));
    assert(only_text(mid) =~= mid);
    assert(only_text(spec_embed(cs, payload)) =~= mid);
}

/// Law: embedding a payload and then embedding another over it yields the
/// same container as embedding only the second.
pub proof fn lemma_embed_twice(cs: Seq<ChunkModel>, p1: Seq<u8>, p2: Seq<u8>)
    requires
        cs.len() > 0,
        cs.last().tag == terminal_tag(),
    ensures
        spec_embed(spec_embed(cs, p1), p2) == spec_embed(cs, p2),
{
    lemma_embed_split(cs, p1);
    lemma_strip_non_text(cs);
    let kept = strip_text(cs);
    let k = kept.len() as int;
    let front = kept.take(k - 1);
    let back = kept.skip(k - 1);
    let mid = seq![metadata_chunk(p1)];
    lemma_strip_concat(front + mid, back);
    lemma_strip_concat(front, mid);
    assert forall|i: int| 0 <= i < front.len() implies (#[trigger] front[i]).tag != text_tag() by {
        assert(front[i] == kept[i]);
    }
    assert forall|i: int| 0 <= i < back.len() implies (#[trigger] back[i]).tag != text_tag() by {
        assert(back[i] == kept[i + k - 1]);
    }
    lemma_strip_identity(front);
    lemma_strip_identity(back);
    assert(mid[0] == metadata_chunk(p1) && mid[0].tag == text_tag());
    assert(mid.skip(1) =~= Seq::<ChunkModel>::empty());
    assert(strip_text(Seq::<ChunkModel>::empty()) == Seq::<ChunkModel>::empty());
    assert(strip_text(mid) == strip_text(mid.skip(1)));
    assert(strip_text(mid) =~= Seq::<ChunkModel>::empty());
    assert(strip_text(spec_embed(cs, p1)) =~= kept) by {
        assert(front + Seq::<ChunkModel>::empty() + back =~= kept);
        assert(strip_text(spec_embed(cs, p1)) == (front + Seq::<ChunkModel>::empty()) + back);
        assert((front + Seq::<ChunkModel>::empty()) + back =~= kept);
    }
}

/// True exactly of the metadata-carrying text-comment tag.
pub fn is_text_tag(tag: &Vec<u8>) -> (r: bool)
    ensures
        r == (tag@ == text_tag()),
{
    proof {
        assert(text_tag().len() == 4 && text_tag()[0] == 116 && text_tag()[1] == 69 && text_tag()[2]
            == 88 && text_tag()[3] == 116);
    }
    if tag.len() != 4 {
        return false;
    }
    let r = tag[0] == 116 && tag[1] == 69 && tag[2] == 88 && tag[3] == 116;
    proof {
        if r {
            assert(tag@ =~= text_tag());
        }
    }
    r
}

/// True exactly of the terminal-marker tag.
pub fn is_terminal_tag(tag: &Vec<u8>) -> (r: bool)
    ensures
        r == (tag@ == terminal_tag()),
{
    proof {
        assert(terminal_tag().len() == 4 && terminal_tag()[0] == 73 && terminal_tag()[1] == 69
            && terminal_tag()[2] == 78 && terminal_tag()[3] == 68);
    }
    if tag.len() != 4 {
        return false;
    }
    let r = tag[0] == 73 && tag[1] == 69 && tag[2] == 78 && tag[3] == 68;
    proof {
        if r {
            assert(tag@ =~= terminal_tag());
        }
    }
    r
}

/// Rewrites the chunk sequence for a fresh payload: every text-comment chunk
/// is dropped, and one new text-comment chunk carrying the payload is
/// inserted immediately before the terminal chunk.
pub fn embed(c: Container, payload: Vec<u8>) -> (r: Container)
    requires
        c@.len() > 0,
        c@.last().tag == terminal_tag(),
        payload@.len() <= 0xFFFF_FFFF,
    ensures
        r@ == spec_embed(c@, payload@),
        container_wf(c@) ==> container_wf(r@),
        r@.len() > 0,
        r@.last().tag == terminal_tag(),
{
    let ghost orig = c@;
    proof {
        assert(terminal_tag()[0] == 73 && text_tag()[0] == 116);
        lemma_strip_last(orig);
        if container_wf(orig) {
            lemma_strip_wf(orig);
        }
    }
    let mut rest = c.chunks;
    let mut kept: Vec<Chunk> = Vec::new();
    proof {
        assert(kept@.map_values(|x: Chunk| x@) =~= Seq::<ChunkModel>::empty());
        assert(Seq::<ChunkModel>::empty() + strip_text(rest@.map_values(|x: Chunk| x@)) =~= strip_text(
            orig,
        ));
    }
    while rest.len() > 0
        invariant
            strip_text(orig) == kept@.map_values(|x: Chunk| x@) + strip_text(
                rest@.map_values(|x: Chunk| x@),
            ),
            container_wf(orig) ==> container_wf(kept@.map_values(|x: Chunk| x@) + strip_text(
                rest@.map_values(|x: Chunk| x@),
            )),
        decreases rest@.len(),
    {
        let ghost keptm = kept@.map_values(|x: Chunk| x@);
        let ghost restm = rest@.map_values(|x: Chunk| x@);
        let ch = rest.remove(0);
        proof {
            assert(restm[0] == ch@);
            assert(rest@.map_values(|x: Chunk| x@) =~= restm.skip(1));
        }
        if is_text_tag(&ch.tag) {
            proof {
                assert(strip_text(restm) == strip_text(restm.skip(1)));
            }
        } else {
            let ghost chm = ch@;
            kept.push(ch);
            proof {
                assert(kept@.map_values(|x: Chunk| x@) =~= keptm.push(chm));
                assert(strip_text(restm) == seq![chm] + strip_text(restm.skip(1)));
                assert(keptm + (seq![chm] + strip_text(restm.skip(1))) =~= keptm.push(chm)
                    + strip_text(restm.skip(1)));
            }
        }
    }
    proof {
        assert(rest@.map_values(|x: Chunk| x@) =~= Seq::<ChunkModel>::empty());
        assert(kept@.map_values(|x: Chunk| x@) + Seq::<ChunkModel>::empty() =~= kept@.map_values(
            |x: Chunk| x@,
        ));
        assert(kept@.map_values(|x: Chunk| x@) == strip_text(orig));
        assert(kept@.len() == strip_text(orig).len());
    }
    let mut tag: Vec<u8> = Vec::new();
    tag.push(116);
    tag.push(69);
    tag.push(88);
    tag.push(116);
    proof {
        assert(tag@ =~= text_tag());
    }
    let meta = Chunk { tag, data: payload };
    let ghost metam = meta@;
    let pos = kept.len() - 1;
    let ghost keptm = kept@.map_values(|x: Chunk| x@);
    kept.insert(pos, meta);
    proof {
        assert(metam == metadata_chunk(payload@));
        assert(kept@.map_values(|x: Chunk| x@) =~= keptm.insert(pos as int, metam));
        keptm.insert_ensures(pos as int, metam);
        if container_wf(orig) {
            assert forall|i: int| 0 <= i < keptm.insert(pos as int, metam).len() implies chunk_wf(
                #[trigger] keptm.insert(pos as int, metam)[i],
            ) by {
                if i < pos {
                    assert(keptm.insert(pos as int, metam)[i] == keptm[i]);
                } else if i == pos {
                    assert(keptm.insert(pos as int, metam)[i] == metam);
                    assert(text_tag().len() == 4);
                } else {
                    assert(keptm.insert(pos as int, metam)[i] == keptm[i - 1]);
                }
            }
        }
        assert(keptm.insert(pos as int, metam).last() == keptm[pos as int]);
        assert(keptm[pos as int] == keptm.last());
        assert(keptm.last() == orig.last());
    }
    Container { chunks: kept }
}

}
