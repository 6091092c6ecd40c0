//! The layout of a frame in memory.
//!
//! A frame is a run of bytes. Its rows lie `stride` bytes apart; within a
//! row each pixel takes four bytes: blue, green, red and an alpha byte that
//! is always opaque.

use vstd::prelude::*;

verus! {

/// The number of bytes that one pixel takes.
pub const BYTES_PER_PIXEL: usize = 4;

/// A colour as three channel values.
#[derive(Clone, Copy, Debug, PartialEq, Eq, Structural)]
pub struct Rgb {
    pub r: u8,
    pub g: u8,
    pub b: u8,
}

/// Where the pixel in column `x` of row `y` starts in a frame whose rows
/// lie `stride` bytes apart.
pub open spec fn pixel_offset(stride: int, x: int, y: int) -> int {
    y * stride + x * 4
}

/// The frame `buf` with one pixel of the given colour stored at byte `at`.
pub open spec fn stored(buf: Seq<u8>, at: int, color: Rgb) -> Seq<u8> {
    buf.update(at, color.b).update(at + 1, color.g).update(at + 2, color.r).update(at + 3, 255u8)
}

/// The frame `buf` after the first `n` pixels of row `y` were stored, from
/// the left. The colours of the frame are in `pixels`, row after row, each
/// row `width` long.
pub open spec fn painted_row(
    buf: Seq<u8>,
    stride: int,
    width: int,
    pixels: Seq<Rgb>,
    y: int,
    n: int,
) -> Seq<u8>
    decreases n,
{
    if n <= 0 {
        buf
    } else {
        stored(
            painted_row(buf, stride, width, pixels, y, n - 1),
            pixel_offset(stride, n - 1, y),
            pixels[y * width + n - 1],
        )
    }
}

/// The frame `buf` after its first `rows` rows were stored, from the top.
pub open spec fn painted(buf: Seq<u8>, stride: int, width: int, pixels: Seq<Rgb>, rows: int) -> Seq<
    u8,
>
    decreases rows,
{
    if rows <= 0 {
        buf
    } else {
        painted_row(
            painted(buf, stride, width, pixels, rows - 1),
            stride,
            width,
            pixels,
            rows - 1,
            width,
        )
    }
}

/// Whether a picture of `width` by `height` pixels lies within a frame of
/// `len` bytes whose rows lie `stride` bytes apart: the last pixel of the
/// last row ends within the frame.
pub open spec fn frame_holds(len: int, stride: int, width: int, height: int) -> bool {
    width == 0 || height == 0 || (height - 1) * stride + width * 4 <= len
}

/// Whether the pixel in column `x` of row `y` lies within a frame of `len`
/// bytes whose rows lie `stride` bytes apart.
pub fn pixel_fits(len: usize, stride: usize, x: u32, y: u32) -> (r: bool)
    ensures
        r == (pixel_offset(stride as int, x as int, y as int) + 4 <= len),
{
    assert(0 <= y * stride <= 0xFFFF_FFFF * 0xFFFF_FFFF_FFFF_FFFF) by (nonlinear_arith)
        requires
            0 <= y <= 0xFFFF_FFFF,
            0 <= stride <= 0xFFFF_FFFF_FFFF_FFFF,
    ;
    let row: u128 = y as u128 * stride as u128;
    let end: u128 = row + x as u128 * 4 + 4;
    end <= len as u128
}

/// Whether a picture of `width` by `height` pixels lies within a frame of
/// `len` bytes whose rows lie `stride` bytes apart.
pub fn frame_fits(len: usize, stride: usize, width: u32, height: u32) -> (r: bool)
    ensures
        r == frame_holds(len as int, stride as int, width as int, height as int),
{
    if width == 0 || height == 0 {
        return true;
    }
    assert(0 <= (height - 1) * stride <= 0xFFFF_FFFF * 0xFFFF_FFFF_FFFF_FFFF) by (nonlinear_arith)
        requires
            0 <= height - 1 <= 0xFFFF_FFFF,
            0 <= stride <= 0xFFFF_FFFF_FFFF_FFFF,
    ;
    let rows: u128 = (height - 1) as u128 * stride as u128;
    let end: u128 = rows + width as u128 * 4;
    end <= len as u128
}

/// Writes one pixel into a frame: blue, green, red, then an opaque alpha
/// byte, at the pixel's place. Nothing else in the frame changes.
pub fn render_pixel(buf: &mut [u8], stride: usize, x: u32, y: u32, color: Rgb)
    requires
        pixel_offset(stride as int, x as int, y as int) + 4 <= old(buf).len(),
    ensures
        final(buf)@ == stored(old(buf)@, pixel_offset(stride as int, x as int, y as int), color),
{
    assert(y * stride >= 0) by (nonlinear_arith)
        requires
            y >= 0,
            stride >= 0,
    ;
    let row: usize = y as usize * stride;
    let pos: usize = row + x as usize * BYTES_PER_PIXEL;
    buf[pos] = color.b;
    buf[pos + 1] = color.g;
    buf[pos + 2] = color.r;
    buf[pos + 3] = 255;
    assert(buf@ =~= stored(old(buf)@, pos as int, color));
}

/// Writes a picture into a frame, row after row from the top and each row
/// from the left.
///
/// `pixels` holds the colours, row after row. Where the rows of the frame do
/// not run into each other, each pixel is found at its place afterwards and
/// the rest of the frame is as before: see [`lemma_painted_pixel`] and
/// [`lemma_painted_elsewhere`].
pub fn render(buf: &mut [u8], stride: usize, width: u32, height: u32, pixels: &[Rgb])
    requires
        pixels.len() == width * height,
        frame_holds(old(buf).len() as int, stride as int, width as int, height as int),
    ensures
        final(buf)@ == painted(old(buf)@, stride as int, width as int, pixels@, height as int),
{
    let ghost before = buf@;
    let mut y: u32 = 0;
    while y < height
        invariant
            y <= height,
            pixels.len() == width * height,
            buf.len() == before.len(),
            frame_holds(before.len() as int, stride as int, width as int, height as int),
            buf@ == painted(before, stride as int, width as int, pixels@, y as int),
        decreases height - y,
    {
        let ghost above = buf@;
        let mut x: u32 = 0;
        while x < width
            invariant
                y < height,
                x <= width,
                pixels.len() == width * height,
                buf.len() == before.len(),
                frame_holds(before.len() as int, stride as int, width as int, height as int),
                buf@ == painted_row(above, stride as int, width as int, pixels@, y as int, x as int),
            decreases width - x,
        {
            proof {
                lemma_pixel_within(
                    buf.len() as int,
                    stride as int,
                    width as int,
                    height as int,
                    x as int,
                    y as int,
                );
            }
            let k: usize = y as usize * width as usize + x as usize;
            render_pixel(buf, stride, x, y, pixels[k]);
            x = x + 1;
        }
        y = y + 1;
    }
}

/// Every pixel of a picture that a frame holds lies within the frame, and
/// has its place in the run of colours.
proof fn lemma_pixel_within(len: int, stride: int, width: int, height: int, x: int, y: int)
    requires
        0 <= stride,
        0 <= x < width,
        0 <= y < height,
        frame_holds(len, stride, width, height),
    ensures
        0 <= y * stride,
        pixel_offset(stride, x, y) + 4 <= len,
        0 <= y * width,
        y * width + x < width * height,
{
    assert(0 <= y * stride <= (height - 1) * stride) by (nonlinear_arith)
        requires
            0 <= y <= height - 1,
            0 <= stride,
    ;
    assert(0 <= y * width && y * width + width <= width * height) by (nonlinear_arith)
        requires
            0 <= y,
            y + 1 <= height,
            0 <= width,
    ;
}

/// Storing the first `n` pixels of a row changes the bytes of those pixels
/// and no others.
proof fn lemma_painted_row(
    buf: Seq<u8>,
    stride: int,
    width: int,
    pixels: Seq<Rgb>,
    y: int,
    n: int,
)
    requires
        0 <= n,
        0 <= pixel_offset(stride, 0, y),
        pixel_offset(stride, n, y) <= buf.len(),
    ensures
        ({
            let out = painted_row(buf, stride, width, pixels, y, n);
            &&& out.len() == buf.len()
            &&& forall|x: int|
                #![trigger pixels[y * width + x]]
                0 <= x < n ==> {
                    let at = pixel_offset(stride, x, y);
                    let color = pixels[y * width + x];
                    &&& out[at] == color.b
                    &&& out[at + 1] == color.g
                    &&& out[at + 2] == color.r
                    &&& out[at + 3] == 255
                }
            &&& forall|p: int|
                0 <= p < buf.len() && !(pixel_offset(stride, 0, y) <= p < pixel_offset(stride, n, y))
                    ==> #[trigger] out[p] == buf[p]
        }),
    decreases n,
{
    if n > 0 {
        lemma_painted_row(buf, stride, width, pixels, y, n - 1);
    }
}

/// Storing the first `rows` rows of a picture changes the bytes of those
/// rows' pixels and no others.
proof fn lemma_painted_rows(
    buf: Seq<u8>,
    stride: int,
    width: int,
    height: int,
    pixels: Seq<Rgb>,
    rows: int,
)
    requires
        0 <= rows <= height,
        0 <= width,
        width * 4 <= stride,
        frame_holds(buf.len() as int, stride, width, height),
    ensures
        ({
            let out = painted(buf, stride, width, pixels, rows);
            &&& out.len() == buf.len()
            &&& forall|x: int, y: int|
                #![trigger pixels[y * width + x]]
                0 <= x < width && 0 <= y < rows ==> {
                    let at = pixel_offset(stride, x, y);
                    let color = pixels[y * width + x];
                    &&& out[at] == color.b
                    &&& out[at + 1] == color.g
                    &&& out[at + 2] == color.r
                    &&& out[at + 3] == 255
                }
            &&& forall|p: int|
                0 <= p < buf.len() && !in_picture(stride, width, rows, p) ==> #[trigger] out[p]
                    == buf[p]
        }),
    decreases rows,
{
    if rows > 0 {
        let y = rows - 1;
        let above = painted(buf, stride, width, pixels, y);
        let out = painted(buf, stride, width, pixels, rows);
        lemma_painted_rows(buf, stride, width, height, pixels, y);
        if width > 0 {
            lemma_pixel_within(buf.len() as int, stride, width, height, width - 1, y);
            lemma_painted_row(above, stride, width, pixels, y, width);
        }
        assert forall|x: int, v: int|
            #![trigger pixels[v * width + x]]
            0 <= x < width && 0 <= v < rows implies {
            let at = pixel_offset(stride, x, v);
            let color = pixels[v * width + x];
            &&& out[at] == color.b
            &&& out[at + 1] == color.g
            &&& out[at + 2] == color.r
            &&& out[at + 3] == 255
        } by {
            if v < y {
                lemma_pixel_within(buf.len() as int, stride, width, height, x, v);
                lemma_rows_apart(stride, width, v, y);
            }
        }
        assert forall|p: int| 0 <= p < buf.len() && !in_picture(stride, width, rows, p) implies #[trigger] out[p]
            == buf[p] by {
            assert(!in_row(stride, width, y, p));
            assert forall|v: int| 0 <= v < y implies !in_row(stride, width, v, p) by {
                assert(0 <= v < rows);
            }
            assert(!in_picture(stride, width, y, p));
        }
    }
}

/// A row that lies above another ends before the other begins, where the
/// rows are at least as far apart as they are long.
proof fn lemma_rows_apart(stride: int, width: int, upper: int, lower: int)
    requires
        0 <= upper < lower,
        0 <= width,
        width * 4 <= stride,
    ensures
        pixel_offset(stride, width, upper) <= pixel_offset(stride, 0, lower),
{
    assert(upper * stride + stride <= lower * stride) by (nonlinear_arith)
        requires
            upper + 1 <= lower,
            0 <= stride,
    ;
}

/// Whether byte `p` of a frame belongs to a pixel of row `y`.
pub open spec fn in_row(stride: int, width: int, y: int, p: int) -> bool {
    pixel_offset(stride, 0, y) <= p < pixel_offset(stride, width, y)
}

/// Whether byte `p` of a frame belongs to a pixel of one of the first `rows`
/// rows.
pub open spec fn in_picture(stride: int, width: int, rows: int, p: int) -> bool {
    exists|y: int| 0 <= y < rows && #[trigger] in_row(stride, width, y, p)
}

/// After a picture was written into a frame whose rows do not run into each
/// other, each pixel stands at its place: blue, green, red, opaque.
pub proof fn lemma_painted_pixel(
    buf: Seq<u8>,
    stride: int,
    width: int,
    height: int,
    pixels: Seq<Rgb>,
    x: int,
    y: int,
)
    requires
        0 <= x < width,
        0 <= y < height,
        width * 4 <= stride,
        frame_holds(buf.len() as int, stride, width, height),
    ensures
        ({
            let out = painted(buf, stride, width, pixels, height);
            let at = pixel_offset(stride, x, y);
            let color = pixels[y * width + x];
            &&& out.len() == buf.len()
            &&& 0 <= at
            &&& at + 4 <= out.len()
            &&& out[at] == color.b
            &&& out[at + 1] == color.g
            &&& out[at + 2] == color.r
            &&& out[at + 3] == 255
        }),
{
    lemma_painted_rows(buf, stride, width, height, pixels, height);
    lemma_pixel_within(buf.len() as int, stride, width, height, x, y);
    let _ = pixels[y * width + x];
}

/// After a picture was written into a frame whose rows do not run into each
/// other, every byte that belongs to no pixel of the picture is as before.
pub proof fn lemma_painted_elsewhere(
    buf: Seq<u8>,
    stride: int,
    width: int,
    height: int,
    pixels: Seq<Rgb>,
    p: int,
)
    requires
        0 <= width,
        0 <= height,
        width * 4 <= stride,
        frame_holds(buf.len() as int, stride, width, height),
        0 <= p < buf.len(),
        !in_picture(stride, width, height, p),
    ensures
        painted(buf, stride, width, pixels, height)[p] == buf[p],
{
    lemma_painted_rows(buf, stride, width, height, pixels, height);
}

} // verus!
