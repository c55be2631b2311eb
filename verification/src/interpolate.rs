//! Resizing of a grayscale byte image: the target dimensions for a given
//! long edge, and bilinear interpolation.
use crate::grid::lemma_index_in_bounds;
use vstd::prelude::*;

verus! {

/// `n / d` rounded to the nearest whole number, a half being rounded up.
pub open spec fn rounded_div(n: int, d: int) -> int {
    (n + d / 2) / d
}

/// `len` scaled by `target / longest` and rounded.
fn scale_len(len: u32, target: u32, longest: u32) -> (scaled: u32)
    requires
        len <= longest,
        longest > 0,
    ensures
        scaled == rounded_div(len * target, longest as int),
        scaled <= target,
        target < longest ==> scaled <= len,
{
    proof {
        assert(0 <= len * target <= longest * target) by (nonlinear_arith)
            requires
                0 <= len <= longest,
                target >= 0,
        ;
        assert(longest * target <= 0xffff_ffff * 0xffff_ffff) by (nonlinear_arith)
            requires
                0 <= longest <= 0xffff_ffff,
                0 <= target <= 0xffff_ffff,
        ;
        assert(0 <= (len * target + longest / 2) / (longest as int) <= target)
            by (nonlinear_arith)
            requires
                0 <= len * target <= longest * target,
                longest > 0,
        ;
        if target < longest {
            assert(len * target + longest / 2 < (len + 1) * longest) by (nonlinear_arith)
                requires
                    0 <= len,
                    0 <= target < longest,
            ;
            assert((len * target + longest / 2) / (longest as int) <= len) by (nonlinear_arith)
                requires
                    len * target + longest / 2 < (len + 1) * longest,
                    longest > 0,
            ;
        }
    }
    let product: u64 = (len as u64) * (target as u64);
    ((product + (longest as u64) / 2) / (longest as u64)) as u32
}

/// The dimensions of the image after resizing to the long edge
/// `target_long_edge`. An image whose longer side is not longer than the
/// target keeps its dimensions; otherwise both are scaled by the target over
/// the longer side and rounded.
pub fn calculate_resize_dimensions(width: u32, height: u32, target_long_edge: u32) -> (dims: (
    u32,
    u32,
))
    ensures
        width <= target_long_edge && height <= target_long_edge ==> dims == (width, height),
        width >= height && width > target_long_edge ==> {
            &&& dims.0 == target_long_edge
            &&& dims.1 == rounded_div(height * target_long_edge, width as int)
        },
        height > width && height > target_long_edge ==> {
            &&& dims.0 == rounded_div(width * target_long_edge, height as int)
            &&& dims.1 == target_long_edge
        },
        dims.0 <= width,
        dims.1 <= height,
        dims.0 <= target_long_edge || dims == (width, height),
        dims.1 <= target_long_edge || dims == (width, height),
{
    let max_dimension: u32 = if width >= height {
        width
    } else {
        height
    };
    if max_dimension <= target_long_edge {
        return (width, height);
    }
    let new_width: u32 = scale_len(width, target_long_edge, max_dimension);
    let new_height: u32 = scale_len(height, target_long_edge, max_dimension);
    proof {
        let longest = max_dimension as int;
        let target = target_long_edge as int;
        assert((longest * target + longest / 2) / longest == target) by (nonlinear_arith)
            requires
                longest > 0,
                target >= 0,
        ;
    }
    (new_width, new_height)
}

/// The smaller of `i + 1` and the last index `len - 1`.
pub open spec fn next_index(i: int, len: int) -> int {
    if i + 1 < len {
        i + 1
    } else {
        len - 1
    }
}

/// The numerator of the bilinear interpolation at the destination pixel
/// `(x, y)`: the four source pixels round the source position, each weighted
/// by the area of the rectangle opposite to it, in units of the reciprocal of
/// `dst_width * dst_height`.
pub open spec fn bilinear_sum(
    src: Seq<u8>,
    src_width: int,
    src_height: int,
    dst_width: int,
    dst_height: int,
    x: int,
    y: int,
) -> int {
    let x1 = (x * src_width) / dst_width;
    let y1 = (y * src_height) / dst_height;
    let fx = (x * src_width) % dst_width;
    let fy = (y * src_height) % dst_height;
    let x2 = next_index(x1, src_width);
    let y2 = next_index(y1, src_height);
    src[y1 * src_width + x1] * (dst_width - fx) * (dst_height - fy) + src[y1 * src_width + x2]
        * fx * (dst_height - fy) + src[y2 * src_width + x1] * (dst_width - fx) * fy + src[y2
        * src_width + x2] * fx * fy
}

/// The destination pixel `(x, y)` of the resized image: the bilinear
/// interpolation of the source at the position `(x * src_width / dst_width,
/// y * src_height / dst_height)`, rounded to the nearest whole number.
pub open spec fn bilinear_pixel(
    src: Seq<u8>,
    src_width: int,
    src_height: int,
    dst_width: int,
    dst_height: int,
    x: int,
    y: int,
) -> int {
    rounded_div(
        bilinear_sum(src, src_width, src_height, dst_width, dst_height, x, y),
        dst_width * dst_height,
    )
}

/// `pixel` weighted by the rectangle of sides `wx` and `wy`.
fn weigh(pixel: u8, wx: u64, wy: u64) -> (r: u64)
    requires
        wx <= 0xffff_ffff,
        wy <= 0xffff_ffff,
        wx * wy <= 0xffff_ffff,
    ensures
        r == pixel * wx * wy,
        r <= 255 * (wx * wy),
{
    proof {
        assert(0 <= pixel * wx <= 255 * 0xffff_ffff) by (nonlinear_arith)
            requires
                0 <= pixel <= 255,
                0 <= wx <= 0xffff_ffff,
        ;
        assert(pixel * wx * wy == pixel * (wx * wy)) by (nonlinear_arith);
        assert(0 <= pixel * (wx * wy) <= 255 * (wx * wy)) by (nonlinear_arith)
            requires
                0 <= pixel <= 255,
                0 <= wx * wy,
        ;
    }
    (pixel as u64) * wx * wy
}

/// One pixel of the resized image.
fn interpolate_at(
    src: &[u8],
    src_width: u32,
    src_height: u32,
    dst_width: u32,
    dst_height: u32,
    x: u32,
    y: u32,
) -> (value: u8)
    requires
        src_width > 0,
        src_height > 0,
        src@.len() >= src_width * src_height,
        x < dst_width,
        y < dst_height,
        dst_width * dst_height <= u32::MAX,
    ensures
        value == bilinear_pixel(
            src@,
            src_width as int,
            src_height as int,
            dst_width as int,
            dst_height as int,
            x as int,
            y as int,
        ),
{
    let sw: u64 = src_width as u64;
    let sh: u64 = src_height as u64;
    let dw: u64 = dst_width as u64;
    let dh: u64 = dst_height as u64;
    proof {
        assert(x * sw < dw * sw <= 0xffff_ffff * 0xffff_ffff) by (nonlinear_arith)
            requires
                0 <= x < dw <= 0xffff_ffff,
                0 < sw <= 0xffff_ffff,
        ;
        assert(y * sh < dh * sh <= 0xffff_ffff * 0xffff_ffff) by (nonlinear_arith)
            requires
                0 <= y < dh <= 0xffff_ffff,
                0 < sh <= 0xffff_ffff,
        ;
    }
    let x1: u64 = (x as u64 * sw) / dw;
    let y1: u64 = (y as u64 * sh) / dh;
    let fx: u64 = (x as u64 * sw) % dw;
    let fy: u64 = (y as u64 * sh) % dh;
    proof {
        assert(x1 < sw) by (nonlinear_arith)
            requires
                x1 == (x * sw) / (dw as int),
                x * sw < dw * sw,
                dw > 0,
        ;
        assert(y1 < sh) by (nonlinear_arith)
            requires
                y1 == (y * sh) / (dh as int),
                y * sh < dh * sh,
                dh > 0,
        ;
    }
    let x2: u64 = if x1 + 1 < sw {
        x1 + 1
    } else {
        sw - 1
    };
    let y2: u64 = if y1 + 1 < sh {
        y1 + 1
    } else {
        sh - 1
    };
    proof {
        lemma_index_in_bounds(x1 as int, y1 as int, sw as int, sh as int);
        lemma_index_in_bounds(x2 as int, y1 as int, sw as int, sh as int);
        lemma_index_in_bounds(x1 as int, y2 as int, sw as int, sh as int);
        lemma_index_in_bounds(x2 as int, y2 as int, sw as int, sh as int);
        assert(src@.len() == src.len());
    }
    let wx: u64 = dw - fx;
    let wy: u64 = dh - fy;
    let total: u64 = dw * dh;
    proof {
        assert(wx * wy + fx * wy + wx * fy + fx * fy == total) by (nonlinear_arith)
            requires
                wx == dw - fx,
                wy == dh - fy,
                total == dw * dh,
        ;
        assert(wx * wy >= 0 && fx * wy >= 0 && wx * fy >= 0 && fx * fy >= 0) by (nonlinear_arith)
            requires
                wx >= 0,
                wy >= 0,
                fx >= 0,
                fy >= 0,
        ;
        assert(total > 0) by (nonlinear_arith)
            requires
                total == dw * dh,
                dw > 0,
                dh > 0,
        ;
    }
    let sum: u64 = weigh(src[(y1 * sw + x1) as usize], wx, wy) + weigh(
        src[(y1 * sw + x2) as usize],
        fx,
        wy,
    ) + weigh(src[(y2 * sw + x1) as usize], wx, fy) + weigh(src[(y2 * sw + x2) as usize], fx, fy);
    proof {
        assert(sum == bilinear_sum(
            src@,
            src_width as int,
            src_height as int,
            dst_width as int,
            dst_height as int,
            x as int,
            y as int,
        ));
        assert((sum + total / 2) / (total as int) <= 255) by (nonlinear_arith)
            requires
                0 <= sum <= 255 * total,
                total > 0,
        ;
    }
    ((sum + total / 2) / total) as u8
}

/// The image `src` of `src_width` by `src_height` pixels resized to
/// `dst_width` by `dst_height` pixels by bilinear interpolation. Each
/// destination pixel is interpolated between the four source pixels round the
/// position that it maps to; beyond the last row and column the edge pixel is
/// read again.
pub fn bilinear_resize(
    src: &[u8],
    src_width: u32,
    src_height: u32,
    dst_width: u32,
    dst_height: u32,
) -> (dst: Vec<u8>)
    requires
        dst_width * dst_height <= u32::MAX,
        dst_width > 0 && dst_height > 0 ==> src_width > 0 && src_height > 0 && src@.len()
            >= src_width * src_height,
    ensures
        dst@.len() == dst_width * dst_height,
        forall|x: int, y: int|
            0 <= x < dst_width && 0 <= y < dst_height ==> dst@[y * dst_width + x]
                == #[trigger] bilinear_pixel(
                src@,
                src_width as int,
                src_height as int,
                dst_width as int,
                dst_height as int,
                x,
                y,
            ),
{
    let mut dst: Vec<u8> = Vec::new();
    let mut y: u32 = 0;
    while y < dst_height
        invariant
            dst_width * dst_height <= u32::MAX,
            dst_width > 0 && dst_height > 0 ==> src_width > 0 && src_height > 0 && src@.len()
                >= src_width * src_height,
            y <= dst_height,
            dst@.len() == y * dst_width,
            forall|px: int, py: int|
                0 <= px < dst_width && 0 <= py < y ==> dst@[py * dst_width + px]
                    == #[trigger] bilinear_pixel(
                    src@,
                    src_width as int,
                    src_height as int,
                    dst_width as int,
                    dst_height as int,
                    px,
                    py,
                ),
        decreases dst_height - y,
    {
        let mut x: u32 = 0;
        while x < dst_width
            invariant
                dst_width * dst_height <= u32::MAX,
                dst_width > 0 && dst_height > 0 ==> src_width > 0 && src_height > 0 && src@.len()
                    >= src_width * src_height,
                y < dst_height,
                x <= dst_width,
                dst@.len() == y * dst_width + x,
                forall|px: int, py: int|
                    0 <= px < dst_width && 0 <= py < y ==> dst@[py * dst_width + px]
                        == #[trigger] bilinear_pixel(
                        src@,
                        src_width as int,
                        src_height as int,
                        dst_width as int,
                        dst_height as int,
                        px,
                        py,
                    ),
                forall|px: int|
                    0 <= px < x ==> dst@[y * dst_width + px] == #[trigger] bilinear_pixel(
                        src@,
                        src_width as int,
                        src_height as int,
                        dst_width as int,
                        dst_height as int,
                        px,
                        y as int,
                    ),
            decreases dst_width - x,
        {
            let value: u8 = interpolate_at(
                src,
                src_width,
                src_height,
                dst_width,
                dst_height,
                x,
                y,
            );
            let ghost before = dst@;
            dst.push(value);
            proof {
                assert forall|px: int, py: int|
                    0 <= px < dst_width && 0 <= py < y implies dst@[py * dst_width + px]
                    == #[trigger] bilinear_pixel(
                    src@,
                    src_width as int,
                    src_height as int,
                    dst_width as int,
                    dst_height as int,
                    px,
                    py,
                ) by {
                    lemma_index_in_bounds(px, py, dst_width as int, y as int);
                    assert(dst@[py * dst_width + px] == before[py * dst_width + px]);
                }
            }
            x += 1;
        }
        proof {
            assert((y + 1) * dst_width == y * dst_width + dst_width) by (nonlinear_arith);
            assert forall|px: int, py: int|
                0 <= px < dst_width && 0 <= py < y + 1 implies dst@[py * dst_width + px]
                == #[trigger] bilinear_pixel(
                src@,
                src_width as int,
                src_height as int,
                dst_width as int,
                dst_height as int,
                px,
                py,
            ) by {
                if py == y {
                } else {
                }
            }
        }
        y += 1;
    }
    proof {
        assert(dst_height * dst_width == dst_width * dst_height) by (nonlinear_arith);
    }
    dst
}

} // verus!
