use vstd::prelude::*;
use crate::errors::{ConvertError, ErrorModel};

verus! {

/// The closed set of pixel layouts the canonical encoder is fed.
#[derive(Clone, Copy, PartialEq, Eq, Structural, Debug)]
pub enum ColorLayout {
    Gray,
    Rgb,
    Rgba,
}

pub open spec fn channels_of(layout: ColorLayout) -> nat {
    match layout {
        ColorLayout::Gray => 1,
        ColorLayout::Rgb => 3,
        ColorLayout::Rgba => 4,
    }
}

/// The decoded samples, at eight or sixteen bits per channel.
pub enum SampleBuf {
    Eight(Vec<u8>),
    Sixteen(Vec<u16>),
}

/// The mathematical image of a `SampleBuf`.
#[verifier::ext_equal]
pub enum SampleSeq {
    Eight(Seq<u8>),
    Sixteen(Seq<u16>),
}

impl View for SampleBuf {
    type V = SampleSeq;

    open spec fn view(&self) -> SampleSeq {
        match self {
            SampleBuf::Eight(v) => SampleSeq::Eight(v@),
            SampleBuf::Sixteen(v) => SampleSeq::Sixteen(v@),
        }
    }
}

/// A decoded raster: geometry, layout, and the channel samples in row order.
pub struct RawImage {
    pub layout: ColorLayout,
    pub width: usize,
    pub height: usize,
    pub samples: SampleBuf,
}

/// The mathematical image of a `RawImage`.
#[verifier::ext_equal]
pub struct RawImageModel {
    pub layout: ColorLayout,
    pub width: nat,
    pub height: nat,
    pub samples: SampleSeq,
}

impl View for RawImage {
    type V = RawImageModel;

    open spec fn view(&self) -> RawImageModel {
        RawImageModel {
            layout: self.layout,
            width: self.width as nat,
            height: self.height as nat,
            samples: self.samples@,
        }
    }
}

/// The two big-endian bytes of every sample, in order: high byte first.
/// This is the byte order the canonical container format stores sixteen-bit
/// channels in, whatever order the decoding machine keeps them in memory.
pub open spec fn be_sample_bytes(v: Seq<u16>) -> Seq<u8> {
    Seq::new(
        v.len() * 2,
        |i: int|
            if i % 2 == 0 {
                (v[i / 2] / 0x100) as u8
            } else {
                (v[i / 2] % 0x100) as u8
            },
    )
}

/// The raw byte stream a sample buffer hands the canonical encoder:
/// eight-bit samples as they are, sixteen-bit samples as big-endian pairs.
pub open spec fn raw_stream(s: SampleSeq) -> Seq<u8> {
    match s {
        SampleSeq::Eight(b) => b,
        SampleSeq::Sixteen(w) => be_sample_bytes(w),
    }
}

pub open spec fn is_sixteen(s: SampleSeq) -> bool {
    s is Sixteen
}

/// Law: sixteen-bit samples are emitted high byte first — the byte-order
/// swap a native little-endian buffer needs before the canonical encoder
/// sees it.
pub proof fn lemma_be_sample_bytes(v: Seq<u16>, i: int)
    requires
        0 <= i < v.len(),
    ensures
        be_sample_bytes(v).len() == 2 * v.len(),
        be_sample_bytes(v)[2 * i] == (v[i] / 0x100) as u8,
        be_sample_bytes(v)[2 * i + 1] == (v[i] % 0x100) as u8,
{
    assert((2 * i) % 2 == 0 && (2 * i) / 2 == i && (2 * i + 1) % 2 == 1 && (2 * i + 1) / 2 == i)
        by (nonlinear_arith)
        requires
            0 <= i,
    ;
}

/// Splits every sixteen-bit sample into its two big-endian bytes.
pub fn samples_to_be_bytes(v: &Vec<u16>) -> (out: Vec<u8>)
    ensures
        out@ == be_sample_bytes(v@),
{
    let mut out: Vec<u8> = Vec::new();
    let mut i: usize = 0;
    while i < v.len()
        invariant
            0 <= i <= v@.len(),
            out@.len() == 2 * i,
            forall|j: int|
                0 <= j < i ==> out@[2 * j] == (v@[j] / 0x100) as u8 && out@[2 * j + 1] == (
                #[trigger] v@[j] % 0x100) as u8,
        decreases v@.len() - i,
    {
        let s = v[i];
        out.push((s / 0x100) as u8);
        out.push((s % 0x100) as u8);
        i = i + 1;
    }
    proof {
        assert forall|j: int| 0 <= j < out@.len() implies out@[j] == be_sample_bytes(v@)[j] by {
            lemma_be_sample_bytes(v@, j / 2);
            if j % 2 == 0 {
                assert(j == 2 * (j / 2));
            } else {
                assert(j == 2 * (j / 2) + 1);
            }
        }
        assert(out@ =~= be_sample_bytes(v@));
    }
    out
}

/// Whether the byte stream is exactly as long as the geometry demands: one
/// byte per channel sample, or two at sixteen-bit depth.
pub open spec fn geometry_ok(m: RawImageModel) -> bool {
    raw_stream(m.samples).len() == m.width * m.height * channels_of(m.layout) * (
    if is_sixteen(m.samples) {
        2int
    } else {
        1int
    })
}

/// What the canonical low-level encoder returns for a raw byte stream with
/// the given geometry, layout and depth.
pub uninterp spec fn lodepng_encoded(
    data: Seq<u8>,
    channels: nat,
    width: nat,
    height: nat,
    depth16: bool,
) -> Option<Seq<u8>>;

/// Relies on lodepng::encode_memory: deterministic encoding of a raw byte
/// buffer, whose sixteen-bit samples it reads big-endian, into the canonical
/// container format. A buffer of any other length than the geometry demands
/// makes it panic, so such a buffer is excluded here.
#[verifier::external_body]
fn lodepng_encode(data: &Vec<u8>, layout: ColorLayout, width: usize, height: usize, depth16: bool) -> (r:
    Option<Vec<u8>>)
    requires
        data@.len() == width * height * channels_of(layout) * (if depth16 {
            2int
        } else {
            1int
        }),
    ensures
        r matches Some(p) ==> lodepng_encoded(
            data@,
            channels_of(layout),
            width as nat,
            height as nat,
            depth16,
        ) == Some(p@),
        r is None <==> lodepng_encoded(
            data@,
            channels_of(layout),
            width as nat,
            height as nat,
            depth16,
        ) is None,
{
    let ct = match layout {
        ColorLayout::Gray => lodepng::ColorType::GREY,
        ColorLayout::Rgb => lodepng::ColorType::RGB,
        ColorLayout::Rgba => lodepng::ColorType::RGBA,
    };
    let depth = if depth16 {
        16
    } else {
        8
    };
    lodepng::encode_memory(data.as_slice(), width, height, ct, depth).ok()
}

/// What encoding a decoded raster yields: its raw byte stream, with
/// sixteen-bit samples swapped to big-endian, handed to the canonical
/// encoder — provided the stream matches the geometry at all.
pub open spec fn spec_encode_image(m: RawImageModel) -> Option<Seq<u8>> {
    if !geometry_ok(m) {
        None
    } else {
        lodepng_encoded(
            raw_stream(m.samples),
            channels_of(m.layout),
            m.width,
            m.height,
            is_sixteen(m.samples),
        )
    }
}

/// A stream no longer than the machine can address cannot meet a geometry
/// demanding more bytes than that.
proof fn lemma_geometry_mismatch(m: RawImageModel, slen: nat)
    requires
        raw_stream(m.samples).len() == slen,
        slen <= usize::MAX,
        m.width * m.height * channels_of(m.layout) * (if is_sixteen(m.samples) {
            2int
        } else {
            1int
        }) > usize::MAX,
    ensures
        !geometry_ok(m),
{
}

/// Encodes a decoded raster into canonical container bytes. Sixteen-bit
/// samples are byte-swapped to big-endian first; omitting that swap would
/// corrupt every sixteen-bit image.
pub fn encode_raw_image(img: &RawImage) -> (r: Result<Vec<u8>, ConvertError>)
    ensures
        r matches Ok(p) ==> spec_encode_image(img@) == Some(p@),
        r matches Err(e) ==> spec_encode_image(img@) is None && e@ == ErrorModel::Decode,
{
    let channels: usize = match img.layout {
        ColorLayout::Gray => 1,
        ColorLayout::Rgb => 3,
        ColorLayout::Rgba => 4,
    };
    let stream: Vec<u8> = match &img.samples {
        SampleBuf::Eight(b) => crate::binary::copy_range(b.as_slice(), 0, b.len()),
        SampleBuf::Sixteen(w) => samples_to_be_bytes(w),
    };
    let bytes_per_sample: usize = match &img.samples {
        SampleBuf::Eight(_) => 1,
        SampleBuf::Sixteen(_) => 2,
    };
    let slen = stream.len();
    let ghost m = img@;
    let ghost chn = channels_of(m.layout);
    let ghost bpsn: int = if is_sixteen(m.samples) {
        2
    } else {
        1
    };
    proof {
        assert(stream@ =~= raw_stream(m.samples));
        assert(channels as int == chn && 1 <= chn <= 4);
        assert(bytes_per_sample as int == bpsn && 1 <= bpsn <= 2);
    }
    let expected = match img.width.checked_mul(img.height) {
        Some(a) => match a.checked_mul(channels) {
            Some(b) => match b.checked_mul(bytes_per_sample) {
                Some(c) => c,
                None => {
                    proof {
                        lemma_geometry_mismatch(m, slen as nat);
                    }
                    return Err(ConvertError::DecodeError);
                },
            },
            None => {
                proof {
                    assert(m.width * m.height * chn * bpsn >= m.width * m.height * chn)
                        by (nonlinear_arith)
                        requires
                            m.width * m.height * chn >= 0,
                            bpsn >= 1,
                    ;
                    lemma_geometry_mismatch(m, slen as nat);
                }
                return Err(ConvertError::DecodeError);
            },
        },
        None => {
            proof {
                assert(m.width * m.height * chn * bpsn >= m.width * m.height) by (nonlinear_arith)
                    requires
                        m.width * m.height >= 0,
                        chn >= 1,
                        bpsn >= 1,
                ;
                lemma_geometry_mismatch(m, slen as nat);
            }
            return Err(ConvertError::DecodeError);
        },
    };
    if slen != expected {
        return Err(ConvertError::DecodeError);
    }
    let depth16 = match &img.samples {
        SampleBuf::Eight(_) => false,
        SampleBuf::Sixteen(_) => true,
    };
    match lodepng_encode(&stream, img.layout, img.width, img.height, depth16) {
        Some(p) => Ok(p),
        None => Err(ConvertError::DecodeError),
    }
}

/// Whether the format-sniffing raster decoder recognizes the bytes at all.
pub uninterp spec fn sniffed_format_known(data: Seq<u8>) -> bool;

/// What re-encoding a recognized raster into the canonical format yields,
/// when the bytes decode at all.
pub uninterp spec fn image_reencoded(data: Seq<u8>) -> Option<Seq<u8>>;

/// The pixel samples the generic decoder reads out of the bytes, in its
/// canonical buffer order; absent when the bytes do not decode.
pub uninterp spec fn decoded_raster(data: Seq<u8>) -> Option<Seq<u8>>;

/// Why the generic raster path failed.
#[derive(Clone, Copy, PartialEq, Eq, Structural, Debug)]
pub enum RasterFailure {
    UnknownFormat,
    Unreadable,
}

/// Relies on image's content-sniffing reader, its decoder and its PNG
/// writer: each is a function of the input bytes alone, and the canonical
/// format is lossless, so the bytes written decode to the very pixel buffer
/// that was decoded from the source.
#[verifier::external_body]
fn reencode_with_image(data: &Vec<u8>) -> (r: Result<Vec<u8>, RasterFailure>)
    ensures
        r matches Ok(v) ==> sniffed_format_known(data@) && image_reencoded(data@) == Some(v@),
        r matches Ok(v) ==> decoded_raster(v@) == decoded_raster(data@) && decoded_raster(data@)
            is Some,
        !sniffed_format_known(data@) ==> r matches Err(RasterFailure::UnknownFormat),
        sniffed_format_known(data@) && image_reencoded(data@) is None ==> r matches Err(
            RasterFailure::Unreadable,
        ),
        sniffed_format_known(data@) && image_reencoded(data@) is Some ==> r is Ok,
{
    let cursor = std::io::Cursor::new(data.as_slice());
    let reader = image::io::Reader::new(cursor)
        .with_guessed_format()
        .map_err(|_| RasterFailure::Unreadable)?;
    if reader.format().is_none() {
        return Err(RasterFailure::UnknownFormat);
    }
    let img = reader.decode().map_err(|_| RasterFailure::Unreadable)?;
    let mut out = std::io::Cursor::new(Vec::new());
    img.write_to(&mut out, image::ImageFormat::Png).map_err(|_| RasterFailure::Unreadable)?;
    Ok(out.into_inner())
}

/// What normalizing a raster through the generic decoder yields: an unknown
/// format, an unreadable image, or the canonical re-encoding of its pixels.
pub open spec fn spec_normalize(data: Seq<u8>) -> Result<Seq<u8>, ErrorModel> {
    if !sniffed_format_known(data) {
        Err(ErrorModel::UnknownFormat)
    } else {
        match image_reencoded(data) {
            Some(p) => Ok(p),
            None => Err(ErrorModel::Decode),
        }
    }
}

/// Normalizes a raster whose format the generic decoder sniffs from the
/// content: the pixels are re-encoded into canonical container bytes, and
/// only the container changes — the output decodes to the same pixel
/// samples as the source.
pub fn normalize_raster(data: &Vec<u8>) -> (r: Result<Vec<u8>, ConvertError>)
    ensures
        r matches Ok(p) ==> spec_normalize(data@) == Ok::<_, ErrorModel>(p@),
        r matches Ok(p) ==> decoded_raster(p@) == decoded_raster(data@) && decoded_raster(data@)
            is Some,
        r matches Err(e) ==> spec_normalize(data@) == Err::<Seq<u8>, _>(e@),
{
    match reencode_with_image(data) {
        Ok(p) => Ok(p),
        Err(RasterFailure::UnknownFormat) => Err(ConvertError::UnknownFormatError),
        Err(RasterFailure::Unreadable) => Err(ConvertError::DecodeError),
    }
}

/// The extension that names the specialized still-image codec's files.
pub open spec fn still_codec_ext() -> Seq<u8> {
    seq![97u8, 118u8, 105u8, 102u8]
}

/// True exactly of the extension routed to the specialized still-image
/// codec rather than the generic decoder.
pub fn uses_still_codec(ext: &Vec<u8>) -> (r: bool)
    ensures
        r == (ext@ == still_codec_ext()),
{
    proof {
        assert(still_codec_ext().len() == 4 && still_codec_ext()[0] == 97 && still_codec_ext()[1]
            == 118 && still_codec_ext()[2] == 105 && still_codec_ext()[3] == 102);
    }
    if ext.len() != 4 {
        return false;
    }
    let r = ext[0] == 97 && ext[1] == 118 && ext[2] == 105 && ext[3] == 102;
    proof {
        if r {
            assert(ext@ =~= still_codec_ext());
        }
    }
    r
}

}
