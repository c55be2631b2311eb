//! Conversion of a colour image to grayscale.
use vstd::prelude::*;

verus! {

/// The luma of a colour: `0.299 r + 0.587 g + 0.114 b`, rounded to the
/// nearest whole number, a half being rounded up.
pub open spec fn luma(r: u8, g: u8, b: u8) -> int {
    (299 * r + 587 * g + 114 * b + 500) / 1000
}

/// The grayscale image of an image of four bytes per pixel (red, green,
/// blue, alpha): one byte per pixel, the luma of its colour. Bytes after the
/// last whole pixel are ignored. `width` and `height` are those of the image.
pub fn rgba_to_gray(img_data: &[u8], width: usize, height: usize) -> (gray: Vec<u8>)
    ensures
        gray@.len() == img_data@.len() / 4,
        forall|i: int|
            0 <= i < gray@.len() ==> gray@[i] == luma(
                img_data@[4 * i],
                img_data@[4 * i + 1],
                img_data@[4 * i + 2],
            ),
{
    let count: usize = img_data.len() / 4;
    assert(img_data@.len() == img_data.len());
    let mut gray: Vec<u8> = Vec::new();
    let mut i: usize = 0;
    while i < count
        invariant
            count == img_data@.len() / 4,
            img_data@.len() <= usize::MAX,
            i <= count,
            gray@.len() == i,
            forall|k: int|
                0 <= k < i ==> gray@[k] == luma(
                    img_data@[4 * k],
                    img_data@[4 * k + 1],
                    img_data@[4 * k + 2],
                ),
        decreases count - i,
    {
        let r: u32 = img_data[4 * i] as u32;
        let g: u32 = img_data[4 * i + 1] as u32;
        let b: u32 = img_data[4 * i + 2] as u32;
        let gray_val: u32 = (299 * r + 587 * g + 114 * b + 500) / 1000;
        gray.push(gray_val as u8);
        i += 1;
    }
    gray
}

} // verus!
