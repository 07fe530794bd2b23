//! Pixel post-processing of decoded images (RGBA, four bytes per pixel):
//! filling color-keyed pixels from a source image, and merging an alpha mask.

use vstd::prelude::*;

verus! {

/// The number of pixels of a `width` by `height` image.
pub fn pixel_total(width: u32, height: u32) -> (n: u64)
    ensures
        n == width * height,
{
    assert((width as u64) * (height as u64) <= u64::MAX) by (nonlinear_arith)
        requires
            width <= u32::MAX,
            height <= u32::MAX,
    ;
    (width as u64) * (height as u64)
}

/// Pixel `i` is visited by the color-key pass: it is among the first
/// `count` pixels and its three color bytes lie inside the buffer.
pub open spec fn scans(pixel_len: nat, count: nat, i: int) -> bool {
    0 <= i && i < count && 4 * i + 2 < pixel_len
}

/// Pixel `i` has the key color, pure red (`FF 00 00`).
pub open spec fn is_key_color(px: Seq<u8>, i: int) -> bool {
    px[4 * i] == 0xFF && px[4 * i + 1] == 0 && px[4 * i + 2] == 0
}

/// Pixel `i` takes its color from the source image: it is visited, has the
/// key color, and the source has a pixel `i` with all three color bytes.
pub open spec fn recolors(px: Seq<u8>, count: nat, src: Seq<u8>, src_count: nat, i: int) -> bool {
    &&& scans(px.len(), count, i)
    &&& is_key_color(px, i)
    &&& i < src_count
    &&& 4 * i + 2 < src.len()
}

/// The buffer after the color-key pass: the color bytes of each recolored
/// pixel come from the same place in the source; every other byte, the
/// alpha bytes among them, is kept.
pub open spec fn color_keyed(px: Seq<u8>, count: nat, src: Seq<u8>, src_count: nat) -> Seq<u8> {
    Seq::new(
        px.len(),
        |k: int|
            if k % 4 < 3 && recolors(px, count, src, src_count, k / 4) {
                src[k]
            } else {
                px[k]
            },
    )
}

/// Fills the key-colored pixels of an image from the pixels at the same
/// place in a same-sized source image. The pass visits the first
/// `width * height` pixels, stopping at the first whose color bytes run
/// past the buffer; a pixel beyond the source's `source_width *
/// source_height` pixels or past its buffer is left as it is. Returns
/// whether any pixel was filled.
pub fn apply_color_key(
    pixels: &mut Vec<u8>,
    width: u32,
    height: u32,
    source: &Vec<u8>,
    source_width: u32,
    source_height: u32,
) -> (filled: bool)
    ensures
        final(pixels)@ == color_keyed(old(pixels)@, (width * height) as nat, source@, (source_width * source_height) as nat),
        filled == exists|i: int| #[trigger] recolors(old(pixels)@, (width * height) as nat, source@, (source_width * source_height) as nat, i),
{
    let ghost px = pixels@;
    let ghost count: nat = (width * height) as nat;
    let ghost src_count: nat = (source_width * source_height) as nat;
    let pixel_count: u64 = pixel_total(width, height);
    let source_count: u64 = pixel_total(source_width, source_height);
    let len = pixels.len();
    let mut filled = false;
    let mut i: usize = 0;
    while (i as u64) < pixel_count && len >= 3 && i <= (len - 3) / 4
        invariant
            pixels@.len() == len,
            len == px.len(),
            pixel_count == count,
            source_count == src_count,
            i as int <= count,
            len >= 3 ==> 4 * i <= len + 1,
            forall|k: int|
                0 <= k < len ==> #[trigger] pixels@[k] == if k / 4 < i {
                    color_keyed(px, count, source@, src_count)[k]
                } else {
                    px[k]
                },
            filled == exists|j: int| 0 <= j < i && #[trigger] recolors(px, count, source@, src_count, j),
        decreases len - i,
    {
        assert(4 * i + 2 < len) by (nonlinear_arith)
            requires
                len >= 3,
                i <= (len - 3) / 4,
        ;
        let o = i * 4;
        if pixels[o] == 0xFF && pixels[o + 1] == 0 && pixels[o + 2] == 0 && (i as u64) < source_count
            && o + 2 < source.len() {
            assert(recolors(px, count, source@, src_count, i as int));
            pixels.set(o, source[o]);
            pixels.set(o + 1, source[o + 1]);
            pixels.set(o + 2, source[o + 2]);
            filled = true;
        } else {
            assert(!recolors(px, count, source@, src_count, i as int));
        }
        i = i + 1;
    }
    proof {
        assert forall|j: int| #[trigger] recolors(px, count, source@, src_count, j) implies 0 <= j < i by {
            if j >= i {
                assert(4 * j + 2 >= len) by (nonlinear_arith)
                    requires
                        j >= i,
                        i >= count || len < 3 || i > (len - 3) / 4,
                        j < count,
                ;
            }
        }
    }
    assert(pixels@ =~= color_keyed(px, count, source@, src_count));
    filled
}

/// The buffer after merging an alpha mask: the alpha byte of pixel `i`
/// becomes `255 - mask[i]` for the first `count` pixels the mask covers;
/// every other byte is kept.
pub open spec fn alpha_masked(px: Seq<u8>, count: nat, mask: Seq<u8>) -> Seq<u8> {
    Seq::new(
        px.len(),
        |k: int|
            if k % 4 == 3 && k / 4 < count && k / 4 < mask.len() {
                (255 - mask[k / 4]) as u8
            } else {
                px[k]
            },
    )
}

/// Merges an alpha mask (one byte per pixel, 0 for opaque) into the alpha
/// bytes of an image of `width * height` pixels. A mask shorter or longer
/// than the image is applied as far as both reach.
pub fn apply_alpha_mask(pixels: &mut Vec<u8>, width: u32, height: u32, mask: &[u8])
    ensures
        final(pixels)@ == alpha_masked(old(pixels)@, (width * height) as nat, mask@),
{
    let ghost px = pixels@;
    let ghost count: nat = (width * height) as nat;
    let pixel_count: u64 = pixel_total(width, height);
    let len = pixels.len();
    if mask.len() == 0 {
        assert(pixels@ =~= alpha_masked(px, count, mask@));
        return;
    }
    let mut i: usize = 0;
    while i < mask.len() && (i as u64) < pixel_count
        invariant
            pixels@.len() == len,
            len == px.len(),
            pixel_count == count,
            i <= mask.len(),
            forall|k: int|
                0 <= k < len ==> #[trigger] pixels@[k] == if k / 4 < i {
                    alpha_masked(px, count, mask@)[k]
                } else {
                    px[k]
                },
        decreases mask.len() - i,
    {
        if len >= 4 && i <= (len - 4) / 4 {
            assert(4 * i + 3 < len) by (nonlinear_arith)
                requires
                    len >= 4,
                    i <= (len - 4) / 4,
            ;
            let o = i * 4;
            pixels.set(o + 3, 255 - mask[i]);
        } else {
            assert(4 * i + 3 >= len) by (nonlinear_arith)
                requires
                    len < 4 || i > (len - 4) / 4,
            ;
        }
        i = i + 1;
    }
    assert(pixels@ =~= alpha_masked(px, count, mask@));
}

/// Running the color-key pass a second time with the same source changes
/// nothing, and the pass never touches an alpha byte.
pub proof fn color_key_is_idempotent(px: Seq<u8>, count: nat, src: Seq<u8>, src_count: nat)
    ensures
        color_keyed(color_keyed(px, count, src, src_count), count, src, src_count)
            == color_keyed(px, count, src, src_count),
        forall|k: int| 0 <= k < px.len() && k % 4 == 3 ==> #[trigger] color_keyed(px, count, src, src_count)[k] == px[k],
{
    let once = color_keyed(px, count, src, src_count);
    let twice = color_keyed(once, count, src, src_count);
    assert forall|k: int| 0 <= k < px.len() implies #[trigger] twice[k] == once[k] by {
        let i = k / 4;
        if k % 4 < 3 {
            if scans(px.len(), count, i) {
                assert(once[4 * i] == (if recolors(px, count, src, src_count, i) { src[4 * i] } else { px[4 * i] }));
                assert(once[4 * i + 1] == (if recolors(px, count, src, src_count, i) { src[4 * i + 1] } else { px[4 * i + 1] }));
                assert(once[4 * i + 2] == (if recolors(px, count, src, src_count, i) { src[4 * i + 2] } else { px[4 * i + 2] }));
            }
        }
    }
    assert(twice =~= once);
}

/// Merging the same alpha mask a second time changes nothing, and the merge
/// never touches a color byte.
pub proof fn alpha_mask_is_idempotent(px: Seq<u8>, count: nat, mask: Seq<u8>)
    ensures
        alpha_masked(alpha_masked(px, count, mask), count, mask) == alpha_masked(px, count, mask),
        forall|k: int| 0 <= k < px.len() && k % 4 < 3 ==> #[trigger] alpha_masked(px, count, mask)[k] == px[k],
{
    assert(alpha_masked(alpha_masked(px, count, mask), count, mask) =~= alpha_masked(px, count, mask));
}

} // verus!
