//! The pixels of a rendered page.

use image::RgbaImage;
use vstd::prelude::*;

verus! {

/// An image of `width` by `height` pixels of four bytes each, row by row.
pub struct Raster {
    pub width: u32,
    pub height: u32,
    pub bytes: Vec<u8>,
}

/// Makes an image of the bytes of its pixels with `ImageBuffer::from_raw`, which refuses bytes that
/// do not fill the image, and takes them out again with `ImageBuffer::into_raw`, unchanged.
#[verifier::external_body]
fn image_bytes(width: u32, height: u32, bytes: Vec<u8>) -> (r: Option<Vec<u8>>)
    ensures
        r.is_some() == (4 * width <= usize::MAX && 4 * width * height <= bytes@.len()),
        r.is_some() ==> r->0@ == bytes@,
{
    RgbaImage::from_raw(width, height, bytes).map(|image| image.into_raw())
}

impl Raster {
    /// An image of these bytes, if they fill it.
    pub fn new(width: u16, height: u16, bytes: Vec<u8>) -> (r: Option<Raster>)
        ensures
            r is Some <==> 4 * width * height <= bytes@.len(),
            r is Some ==> r->0.width == width && r->0.height == height && r->0.bytes@ == bytes@,
    {
        match image_bytes(width as u32, height as u32, bytes) {
            Some(bytes) => Some(Raster { width: width as u32, height: height as u32, bytes }),
            None => None,
        }
    }
}

/// The index of the byte that goes to `i` when the first and the third byte of each pixel change
/// places. What is left over behind the last whole pixel stays.
pub open spec fn swapped_index(len: int, i: int) -> int {
    if i < len - len % 4 && i % 4 == 0 {
        i + 2
    } else if i < len - len % 4 && i % 4 == 2 {
        i - 2
    } else {
        i
    }
}

/// The pixels with their red and their blue exchanged.
pub open spec fn bgra(pixels: Seq<u8>) -> Seq<u8> {
    Seq::new(pixels.len(), |i: int| pixels[swapped_index(pixels.len() as int, i)])
}

/// Exchanges the red and the blue of each pixel.
pub fn bgra_from_rgba(pixels: Vec<u8>) -> (r: Vec<u8>)
    ensures
        r@ == bgra(pixels@),
{
    let ghost before = pixels@;
    let mut pixels = pixels;
    let len: usize = pixels.len();
    let mut at: usize = 0;
    while len - at >= 4
        invariant
            len == before.len(),
            pixels@.len() == len,
            at <= len,
            at % 4 == 0,
            forall|i: int| 0 <= i < at ==> pixels@[i] == before[swapped_index(len as int, i)],
            forall|i: int| at <= i < len ==> pixels@[i] == before[i],
        decreases len - at,
    {
        let red: u8 = pixels[at];
        let blue: u8 = pixels[at + 2];
        pixels.set(at, blue);
        pixels.set(at + 2, red);
        at += 4;
    }
    proof {
        assert(pixels@ =~= bgra(before));
    }
    pixels
}

/// Exchanging red and blue twice changes nothing.
pub proof fn exchanging_twice_changes_nothing(pixels: Seq<u8>)
    ensures
        bgra(bgra(pixels)) == pixels,
{
    assert(bgra(bgra(pixels)) =~= pixels);
}

/// In every pixel red and blue change places, green and alpha stay, and so does what is left over
/// behind the last whole pixel.
pub proof fn red_and_blue_change_places(pixels: Seq<u8>, pixel: int)
    requires
        0 <= pixel,
    ensures
        bgra(pixels).len() == pixels.len(),
        4 * pixel + 4 <= pixels.len() ==> {
            &&& bgra(pixels)[4 * pixel] == pixels[4 * pixel + 2]
            &&& bgra(pixels)[4 * pixel + 1] == pixels[4 * pixel + 1]
            &&& bgra(pixels)[4 * pixel + 2] == pixels[4 * pixel]
            &&& bgra(pixels)[4 * pixel + 3] == pixels[4 * pixel + 3]
        },
        4 * pixel <= pixels.len() < 4 * pixel + 4 ==> bgra(pixels).skip(4 * pixel) == pixels.skip(
            4 * pixel,
        ),
{
    if 4 * pixel <= pixels.len() < 4 * pixel + 4 {
        assert(bgra(pixels).skip(4 * pixel) =~= pixels.skip(4 * pixel));
    }
}

} // verus!
