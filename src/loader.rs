use vstd::prelude::*;

use crate::error::DecodeError;
use crate::header::{
    decode_header, encode_header, header_height, header_outcome, header_width,
    lemma_header_round_trip, le_bytes, SIGNATURE_LEN,
};
use image::DynamicImage;

verus! {

#[verifier::external_type_specification]
#[verifier::external_body]
pub struct ExDynamicImage(image::DynamicImage);

/// Offset of the payload, in bytes: the header padded to whole 32-bit units.
pub const PAYLOAD_OFFSET: usize = 32;

/// The bytes of `units`, four per unit, least significant byte first.
pub open spec fn units_le_bytes(units: Seq<u32>) -> Seq<u8> {
    Seq::new(4 * units.len(), |i: int| le_bytes(units[i / 4] as nat, 4)[i % 4])
}

/// The bytes of `units`, four per unit, most significant byte first.
pub open spec fn units_be_bytes(units: Seq<u32>) -> Seq<u8> {
    Seq::new(4 * units.len(), |i: int| le_bytes(units[i / 4] as nat, 4)[3 - i % 4])
}

/// The pixel data of a container: what follows the padded header.
pub open spec fn payload(b: Seq<u8>) -> Seq<u8> {
    if b.len() >= PAYLOAD_OFFSET {
        b.subrange(PAYLOAD_OFFSET as int, b.len() as int)
    } else {
        seq![]
    }
}

/// Number of payload bytes that an RGBA image of `width` by `height` pixels
/// needs: one 32-bit unit per pixel.
pub open spec fn pixel_bytes(width: u32, height: u32) -> int {
    4 * (width as int) * (height as int)
}

/// What decoding the container `b` gives: its dimensions, or why it fails.
pub open spec fn container_outcome(b: Seq<u8>) -> Result<(u32, u32), DecodeError> {
    match header_outcome(b) {
        Err(e) => Err(e),
        Ok((width, height)) => if pixel_bytes(width, height) <= payload(b).len() {
            Ok((width, height))
        } else {
            Err(DecodeError::InsufficientMemory)
        },
    }
}

/// `r` succeeds exactly where `o` does, and fails with the same error.
pub open spec fn agrees(r: Result<DynamicImage, DecodeError>, o: Result<(u32, u32), DecodeError>) -> bool {
    match r {
        Ok(_) => o is Ok,
        Err(e) => o == Err::<(u32, u32), DecodeError>(e),
    }
}

/// The width and height of an image, as `GenericImageView::dimensions`
/// gives them.
pub uninterp spec fn image_dims(img: DynamicImage) -> (u32, u32);

/// The raw sample bytes that an image holds, as `DynamicImage::as_bytes`
/// gives them.
pub uninterp spec fn image_raw(img: DynamicImage) -> Seq<u8>;

/// `r` is what decoding the container `b` gives: it fails exactly where
/// `container_outcome` does, with the same error, and otherwise holds an
/// image of the declared size whose samples are the first four bytes per
/// pixel of the payload.
pub open spec fn decodes_to(r: Result<DynamicImage, DecodeError>, b: Seq<u8>) -> bool {
    &&& agrees(r, container_outcome(b))
    &&& r is Ok ==> image_dims(r->Ok_0) == (header_width(b), header_height(b))
    &&& r is Ok ==> image_raw(r->Ok_0) == payload(b).subrange(
        0,
        pixel_bytes(header_width(b), header_height(b)),
    )
}

/// Relies on bytemuck::cast_slice from `u32` to `u8`: the units' bytes as
/// they lie in memory, four per unit in the machine's byte order. This cast
/// never fails, since a `u8` needs no alignment and divides any length.
#[verifier::external_body]
fn units_as_bytes(data: &[u32]) -> (r: &[u8])
    ensures
        r@ == units_le_bytes(data@) || r@ == units_be_bytes(data@),
{
    bytemuck::cast_slice(data)
}

/// Relies on image::ImageBuffer::from_raw for RGBA pixels of 8-bit channels:
/// it gives an image exactly when `buf` holds at least four bytes per pixel.
/// That image keeps `width`, `height` and `buf` as they were given, and is
/// wrapped as a `DynamicImage::ImageRgba8`.
#[verifier::external_body]
fn rgba_image_from_raw(width: u32, height: u32, buf: Vec<u8>) -> (r: Option<DynamicImage>)
    ensures
        r is Some <==> pixel_bytes(width, height) <= buf@.len(),
        r is Some ==> image_dims(r->Some_0) == (width, height),
        r is Some ==> image_raw(r->Some_0) == buf@,
{
    image::ImageBuffer::<image::Rgba<u8>, Vec<u8>>::from_raw(width, height, buf).map(
        DynamicImage::ImageRgba8,
    )
}

/// Decodes a container given as bytes into an RGBA image.
///
/// The header is decoded first, and its errors are passed on. The payload
/// starts at the first 32-bit unit after the header and must hold one unit
/// per pixel, else `InsufficientMemory` is returned. Units past the last
/// pixel are ignored.
pub fn decode_container(data: &[u8]) -> (r: Result<DynamicImage, DecodeError>)
    ensures
        decodes_to(r, data@),
{
    let (width, height) = match decode_header(data) {
        Ok(dims) => dims,
        Err(e) => return Err(e),
    };
    let available: usize = if data.len() >= PAYLOAD_OFFSET {
        data.len() - PAYLOAD_OFFSET
    } else {
        0
    };
    assert((width as u64) * (height as u64) <= u64::MAX) by (nonlinear_arith)
        requires
            width <= u32::MAX,
            height <= u32::MAX,
    ;
    let pixels: u64 = width as u64 * height as u64;
    assert(pixel_bytes(width, height) == 4 * pixels) by (nonlinear_arith)
        requires
            pixels == (width as int) * (height as int),
            pixel_bytes(width, height) == 4 * (width as int) * (height as int),
    ;
    assert(pixels <= available / 4 <==> 4 * pixels <= available);
    let wanted: usize = if pixels <= (available / 4) as u64 {
        (pixels * 4) as usize
    } else {
        available
    };
    assert(wanted as int == pixel_bytes(width, height) || (wanted == available
        && available < pixel_bytes(width, height)));
    let mut buf: Vec<u8> = Vec::new();
    let mut i: usize = 0;
    assert(data@.len() == data.len());
    while i < wanted
        invariant
            i <= wanted <= available,
            available == payload(data@).len(),
            wanted > 0 ==> data@.len() == PAYLOAD_OFFSET + available,
            data@.len() <= usize::MAX,
            buf@ == payload(data@).subrange(0, i as int),
        decreases wanted - i,
    {
        assert(payload(data@)[i as int] == data@[PAYLOAD_OFFSET + i]);
        buf.push(data[PAYLOAD_OFFSET + i]);
        i = i + 1;
        assert(buf@ =~= payload(data@).subrange(0, i as int));
    }
    match rgba_image_from_raw(width, height, buf) {
        Some(img) => Ok(img),
        None => Err(DecodeError::InsufficientMemory),
    }
}

/// Decodes a container given as 32-bit units into an RGBA image.
///
/// The units are read as bytes in the machine's byte order, and decoded as
/// [`decode_container`] does.
pub fn load_from_memory(data: &[u32]) -> (r: Result<DynamicImage, DecodeError>)
    ensures
        decodes_to(r, units_le_bytes(data@)) || decodes_to(r, units_be_bytes(data@)),
        4 * data@.len() < 30 ==> r == Err::<DynamicImage, DecodeError>(DecodeError::TooShort),
{
    let bytes = units_as_bytes(data);
    decode_container(bytes)
}

/// Units appended after a complete payload change nothing: the outcome and
/// the pixel bytes stay the same.
pub proof fn lemma_extra_payload_ignored(b: Seq<u8>, extra: Seq<u8>)
    requires
        container_outcome(b) is Ok,
    ensures
        container_outcome(b + extra) == container_outcome(b),
        header_width(b + extra) == header_width(b),
        header_height(b + extra) == header_height(b),
        payload(b + extra).subrange(0, pixel_bytes(header_width(b), header_height(b)))
            == payload(b).subrange(0, pixel_bytes(header_width(b), header_height(b))),
{
    let c = b + extra;
    assert(c.subrange(0, SIGNATURE_LEN as int) =~= b.subrange(0, SIGNATURE_LEN as int));
    assert(c.subrange(14, 22) =~= b.subrange(14, 22));
    assert(c.subrange(22, 30) =~= b.subrange(22, 30));
    let n = pixel_bytes(header_width(b), header_height(b));
    if n > 0 {
        assert(b.len() >= PAYLOAD_OFFSET);
        assert(payload(c).subrange(0, n) =~= payload(b).subrange(0, n));
    } else {
        assert(payload(c).subrange(0, n) =~= payload(b).subrange(0, n));
    }
}

/// A payload with fewer units than the declared pixels is rejected with
/// `InsufficientMemory`.
pub proof fn lemma_short_payload_rejected(
    version: u16,
    width: u32,
    height: u32,
    pad: Seq<u8>,
    pixels: Seq<u8>,
)
    requires
        pad.len() == PAYLOAD_OFFSET - 30,
        pixels.len() < pixel_bytes(width, height),
    ensures
        container_outcome(encode_header(version, width, height) + pad + pixels) == Err::<
            (u32, u32),
            DecodeError,
        >(DecodeError::InsufficientMemory),
{
    lemma_padded_container(version, width, height, pad, pixels);
}

/// A payload with a unit for each declared pixel is accepted, and the image
/// has the declared dimensions.
pub proof fn lemma_full_payload_accepted(
    version: u16,
    width: u32,
    height: u32,
    pad: Seq<u8>,
    pixels: Seq<u8>,
)
    requires
        pad.len() == PAYLOAD_OFFSET - 30,
        pixels.len() >= pixel_bytes(width, height),
    ensures
        container_outcome(encode_header(version, width, height) + pad + pixels) == Ok::<
            (u32, u32),
            DecodeError,
        >((width, height)),
        forall|r: Result<DynamicImage, DecodeError>|
            decodes_to(r, #[trigger] (encode_header(version, width, height) + pad + pixels))
                ==> r is Ok && image_dims(r->Ok_0) == (width, height),
{
    lemma_padded_container(version, width, height, pad, pixels);
}

proof fn lemma_padded_container(version: u16, width: u32, height: u32, pad: Seq<u8>, pixels: Seq<u8>)
    requires
        pad.len() == PAYLOAD_OFFSET - 30,
    ensures
        header_outcome(encode_header(version, width, height) + pad + pixels) == Ok::<
            (u32, u32),
            DecodeError,
        >((width, height)),
        payload(encode_header(version, width, height) + pad + pixels) == pixels,
{
    let h = encode_header(version, width, height);
    lemma_header_round_trip(version, width, height, pad + pixels);
    assert(h + pad + pixels =~= h + (pad + pixels));
    assert(h.len() == 30);
    assert(payload(h + pad + pixels) =~= pixels);
}

} // verus!
