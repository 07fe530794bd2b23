//! PNG output of a converted image: RGBA pixels, eight bits per channel.

use vstd::prelude::*;

verus! {

#[verifier::external_type_specification]
#[verifier::external_body]
pub struct ExPngEncodingError(png::EncodingError);

/// The step of PNG encoding that failed.
#[derive(Clone, Copy, Debug, PartialEq, Eq, Structural)]
pub enum PngStage {
    /// Writing the signature and header chunks.
    Header,
    /// Writing the image data.
    ImageData,
}

/// A failed PNG encoding: the step, and the encoder's error.
#[derive(Debug)]
pub struct PngFailure {
    pub stage: PngStage,
    pub error: png::EncodingError,
}

/// The bytes that the `png` crate writes for an RGBA, eight-bit image of
/// `width` by `height` pixels with its default options: the whole file when
/// the encoding succeeds, what was written up to the failure otherwise.
pub uninterp spec fn png_rgba8_bytes(width: u32, height: u32, pixels: Seq<u8>) -> Seq<u8>;

/// The `IEND` chunk that ends every PNG file: an empty chunk and its CRC.
pub open spec fn iend_chunk() -> Seq<u8> {
    seq![0u8, 0u8, 0u8, 0u8, 0x49u8, 0x45u8, 0x4Eu8, 0x44u8, 0xAEu8, 0x42u8, 0x60u8, 0x82u8]
}

/// A `u32` as four big-endian bytes.
pub open spec fn be32(x: u32) -> Seq<u8> {
    seq![(x >> 24u32) as u8, (x >> 16u32) as u8, (x >> 8u32) as u8, x as u8]
}

/// The `u32` that four bytes at `at` hold, big-endian.
pub open spec fn read_be32(bytes: Seq<u8>, at: int) -> u32 {
    ((bytes[at] as u32) << 24u32) | ((bytes[at + 1] as u32) << 16u32) | ((bytes[at + 2] as u32) << 8u32)
        | (bytes[at + 3] as u32)
}

/// The start of a PNG file of an RGBA, eight-bit, non-interlaced image:
/// the signature, then the `IHDR` chunk's length, name and fields (width,
/// height, bit depth 8, color type 6, compression, filter and interlace 0).
pub open spec fn rgba8_png_start(width: u32, height: u32) -> Seq<u8> {
    seq![137u8, 80u8, 78u8, 71u8, 13u8, 10u8, 26u8, 10u8]
        + seq![0u8, 0u8, 0u8, 13u8, 0x49u8, 0x48u8, 0x44u8, 0x52u8]
        + be32(width) + be32(height)
        + seq![8u8, 6u8, 0u8, 0u8, 0u8]
}

/// The width and height that a PNG file's `IHDR` chunk records.
pub open spec fn png_dimensions(bytes: Seq<u8>) -> (u32, u32) {
    (read_be32(bytes, 16), read_be32(bytes, 20))
}

/// Sizes and pixel data that the encoder accepts: a non-empty image whose
/// buffer holds exactly four bytes per pixel.
pub open spec fn encodable(width: u32, height: u32, pixels: Seq<u8>) -> bool {
    width > 0 && height > 0 && pixels.len() == 4 * width * height
}

/// Encodes RGBA pixels into memory with `png::Encoder` (color type RGBA,
/// bit depth eight, otherwise the defaults): `write_header`, then
/// `write_image_data`, the writer ending the file when it is dropped.
/// Returns the bytes written and the failure, if any. The contract states
/// the encoder's own checks (zero width or height refused by
/// `write_header`, a buffer of the wrong size by `write_image_data`), names
/// the bytes written in every case, and states that a refused header leaves
/// only the `IEND` chunk that the dropped writer adds.
#[verifier::external_body]
fn encode_png_rgba8(width: u32, height: u32, pixels: &[u8]) -> (res: (Vec<u8>, Option<PngFailure>))
    requires
        4 * width * height <= usize::MAX,
    ensures
        res.1 is None <==> encodable(width, height, pixels@),
        res.0@ == png_rgba8_bytes(width, height, pixels@),
        res.1 matches Some(f) ==> (f.stage == PngStage::Header <==> (width == 0 || height == 0)),
        res.1 matches Some(f) && f.stage == PngStage::Header ==> res.0@ == iend_chunk(),
        !(res.1 matches Some(f) && f.stage == PngStage::Header) ==> {
            &&& res.0@.len() >= 29 + 12
            &&& res.0@.take(29) == rgba8_png_start(width, height)
            &&& res.0@.skip(res.0@.len() - 12) == iend_chunk()
        },
{
    let mut out = Vec::new();
    let failure = {
        let mut encoder = png::Encoder::new(&mut out, width, height);
        encoder.set_color(png::ColorType::Rgba);
        encoder.set_depth(png::BitDepth::Eight);
        match encoder.write_header() {
            Err(error) => Some(PngFailure { stage: PngStage::Header, error }),
            Ok(mut writer) => writer.write_image_data(pixels).err().map(
                |error| PngFailure { stage: PngStage::ImageData, error },
            ),
        }
    };
    (out, failure)
}

/// A PNG file that starts as an RGBA, eight-bit file of `width` by `height`
/// pixels records exactly that width and height in its header.
pub proof fn png_start_records_dimensions(bytes: Seq<u8>, width: u32, height: u32)
    requires
        bytes.len() >= 29,
        bytes.take(29) == rgba8_png_start(width, height),
    ensures
        png_dimensions(bytes) == (width, height),
{
    let start = rgba8_png_start(width, height);
    assert(bytes[16] == start[16] && bytes[17] == start[17] && bytes[18] == start[18] && bytes[19] == start[19]);
    assert(bytes[20] == start[20] && bytes[21] == start[21] && bytes[22] == start[22] && bytes[23] == start[23]);
    let (w0, w1, w2, w3) = ((width >> 24u32) as u8, (width >> 16u32) as u8, (width >> 8u32) as u8, width as u8);
    let (h0, h1, h2, h3) = ((height >> 24u32) as u8, (height >> 16u32) as u8, (height >> 8u32) as u8, height as u8);
    assert(start[16] == w0 && start[17] == w1 && start[18] == w2 && start[19] == w3);
    assert(start[20] == h0 && start[21] == h1 && start[22] == h2 && start[23] == h3);
    assert((((width >> 24u32) as u8 as u32) << 24u32) | (((width >> 16u32) as u8 as u32) << 16u32)
        | (((width >> 8u32) as u8 as u32) << 8u32) | (width as u8 as u32) == width) by (bit_vector);
    assert((((height >> 24u32) as u8 as u32) << 24u32) | (((height >> 16u32) as u8 as u32) << 16u32)
        | (((height >> 8u32) as u8 as u32) << 8u32) | (height as u8 as u32) == height) by (bit_vector);
}

/// Why no PNG file is produced.
#[derive(Debug)]
pub enum PngRefusal {
    /// The output file exists and overwriting was not asked for.
    Exists,
    /// Encoding failed; `written` is what the encoder had produced.
    Encoding { failure: PngFailure, written: Vec<u8> },
}

/// The PNG file to write for an image: refused when the output exists and
/// overwriting is not forced; otherwise the encoded image, or the encoder's
/// failure when the sizes and the buffer do not agree.
pub fn png_output(width: u32, height: u32, pixels: &[u8], output_exists: bool, force: bool) -> (res: Result<Vec<u8>, PngRefusal>)
    requires
        4 * width * height <= usize::MAX,
    ensures
        output_exists && !force ==> res matches Err(PngRefusal::Exists),
        !(output_exists && !force) ==> !(res matches Err(PngRefusal::Exists)),
        !(output_exists && !force) ==> (res is Ok <==> encodable(width, height, pixels@)),
        res matches Ok(bytes) ==> bytes@ == png_rgba8_bytes(width, height, pixels@),
        res matches Ok(bytes) ==> png_dimensions(bytes@) == (width, height),
        res matches Ok(bytes) ==> bytes@.take(29) == rgba8_png_start(width, height),
        res matches Ok(bytes) ==> bytes@.skip(bytes@.len() - 12) == iend_chunk(),
        res matches Err(PngRefusal::Encoding { failure, written }) ==> {
            &&& written@ == png_rgba8_bytes(width, height, pixels@)
            &&& (failure.stage == PngStage::Header <==> (width == 0 || height == 0))
            &&& failure.stage == PngStage::Header ==> written@ == iend_chunk()
        },
{
    if output_exists && !force {
        return Err(PngRefusal::Exists);
    }
    let (bytes, failure) = encode_png_rgba8(width, height, pixels);
    match failure {
        None => {
            proof { png_start_records_dimensions(bytes@, width, height); }
            Ok(bytes)
        },
        Some(failure) => Err(PngRefusal::Encoding { failure, written: bytes }),
    }
}

/// Whether a conversion writes a PNG file: not when only checking, and not
/// when only the image information is shown.
pub fn writes_png(info: bool, check: bool) -> (write: bool)
    ensures
        write == (!check && !info),
{
    !check && !info
}

/// Whether a decoded image gets its color key filled and its alpha mask
/// merged: not when raw pixels are asked for.
pub fn merges_layers(raw: bool) -> (merge: bool)
    ensures
        merge == !raw,
{
    !raw
}

} // verus!
