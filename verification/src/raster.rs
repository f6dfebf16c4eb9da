//! The rasterizer: turns the escape count of every pixel into a gray level
//! and writes it into a fresh pixel buffer.
//!
//! An escape count is the number of iterations that a point of the plane
//! survived, between zero and the iteration limit. A point that reached the
//! limit is taken to lie inside the set and is painted white; one that
//! escaped at once is painted black.

use vstd::prelude::*;
use crate::screen::{gray, lemma_offset_in_bounds, offset, Screen, OPAQUE};

verus! {

/// Gray level of the escape count `k` under the iteration limit `limit`:
/// `255 * k / limit`, rounded down.
pub open spec fn gray_level(k: int, limit: int) -> int {
    (k * 255) / limit
}

/// The bytes of a raster whose pixels, in row-major order, have the escape
/// counts `counts`: each pixel is the gray of its own count.
pub open spec fn raster_bytes(counts: Seq<usize>, limit: usize) -> Seq<u8> {
    Seq::new(
        4 * counts.len(),
        |j: int|
            if j % 4 == 3 {
                OPAQUE
            } else {
                gray_level(counts[j / 4] as int, limit as int) as u8
            },
    )
}

/// What a raster request must meet: positive dimensions, a buffer that the
/// machine can allocate, a positive iteration limit, and one escape count
/// per pixel, none above the limit.
pub open spec fn valid_request(
    width: usize,
    height: usize,
    counts: Seq<usize>,
    limit: usize,
) -> bool {
    &&& width > 0
    &&& height > 0
    &&& 4 * width * height <= isize::MAX
    &&& limit >= 1
    &&& counts.len() == width * height
    &&& forall|i: int| 0 <= i < counts.len() ==> counts[i] <= limit
}

/// Why a raster request is refused.
#[derive(Clone, Copy, Debug, PartialEq, Eq)]
pub enum RasterError {
    /// The width or the height is zero.
    ZeroDimension,
    /// The buffer would exceed the largest allocation.
    TooLarge,
    /// The iteration limit is zero.
    ZeroLimit,
    /// The number of escape counts differs from the number of pixels.
    CountsLength,
    /// An escape count exceeds the iteration limit.
    CountAboveLimit,
}

/// The first fault in the frame of a raster request, that is in its
/// dimensions and its iteration limit, in the order in which they are
/// examined, or `None` where the frame is sound.
pub open spec fn frame_error(width: usize, height: usize, limit: usize) -> Option<RasterError> {
    if width == 0 || height == 0 {
        Some(RasterError::ZeroDimension)
    } else if 4 * width * height > isize::MAX {
        Some(RasterError::TooLarge)
    } else if limit == 0 {
        Some(RasterError::ZeroLimit)
    } else {
        None
    }
}

/// The first fault of a raster request, or `None` for a valid one: the
/// frame is examined first, then the escape counts.
pub open spec fn request_error(
    width: usize,
    height: usize,
    counts: Seq<usize>,
    limit: usize,
) -> Option<RasterError> {
    if frame_error(width, height, limit) is Some {
        frame_error(width, height, limit)
    } else if counts.len() != width * height {
        Some(RasterError::CountsLength)
    } else if exists|i: int| 0 <= i < counts.len() && counts[i] > limit {
        Some(RasterError::CountAboveLimit)
    } else {
        None
    }
}

/// The first `4 * done` bytes of `bytes` are those of the raster of `counts`.
spec fn painted(bytes: Seq<u8>, counts: Seq<usize>, limit: usize, done: int) -> bool {
    &&& bytes.len() == 4 * counts.len()
    &&& forall|j: int| 0 <= j < 4 * done ==> bytes[j] == raster_bytes(counts, limit)[j]
}

/// Maps the escape count `k` to a gray level: `255 * k / limit`, rounded
/// down, so that zero is black and the limit itself is white.
pub fn intensity(k: usize, limit: usize) -> (v: u8)
    requires
        1 <= limit,
        k <= limit,
    ensures
        v == gray_level(k as int, limit as int),
{
    proof {
        lemma_gray_level_bounds(k as int, limit as int);
    }
    let scaled: u128 = (k as u128) * 255;
    (scaled / (limit as u128)) as u8
}

/// Paints the raster of a plane region whose pixels, row by row, have the
/// escape counts `counts` under the iteration limit `limit`.
pub fn mandelbrot_screen(
    width: usize,
    height: usize,
    counts: &[usize],
    limit: usize,
) -> (screen: Screen)
    requires
        valid_request(width, height, counts@, limit),
    ensures
        screen.wf(),
        screen.width() == width,
        screen.height() == height,
        screen@.len() == 4 * width * height,
        screen@ == raster_bytes(counts@, limit),
{
    let mut screen = Screen::new(width, height);
    assert(4 * (width * height) == 4 * width * height && width * 0 == 0) by (nonlinear_arith);
    for h in 0..height
        invariant
            valid_request(width, height, counts@, limit),
            screen.wf(),
            screen.width() == width,
            screen.height() == height,
            painted(screen@, counts@, limit, width * h),
    {
        for w in 0..width
            invariant
                h < height,
                valid_request(width, height, counts@, limit),
                screen.wf(),
                screen.width() == width,
                screen.height() == height,
                painted(screen@, counts@, limit, width * h + w),
        {
            proof {
                lemma_offset_in_bounds(width as int, height as int, w as int, h as int);
            }
            let k: usize = counts[width * h + w];
            let v: u8 = intensity(k, limit);
            screen.put_pixel(w, h, v);
        }
        assert(width * h + width == width * (h + 1)) by (nonlinear_arith);
    }
    screen
}

/// Examines the frame of a raster request and tells how many escape counts
/// the request needs, one per pixel; refuses a faulty frame with its first
/// fault.
pub fn sample_count(
    width: usize,
    height: usize,
    limit: usize,
) -> (result: Result<usize, RasterError>)
    ensures
        result is Ok <==> frame_error(width, height, limit) is None,
        result matches Ok(cells) ==> cells == width * height,
        result matches Err(fault) ==> frame_error(width, height, limit) == Some(fault),
{
    if width == 0 || height == 0 {
        return Err(RasterError::ZeroDimension);
    }
    let cells: usize = match width.checked_mul(height) {
        Some(cells) => cells,
        None => {
            assert(4 * width * height > isize::MAX) by (nonlinear_arith)
                requires
                    width * height > usize::MAX,
                    usize::MAX >= isize::MAX,
            ;
            return Err(RasterError::TooLarge);
        },
    };
    assert(4 * width * height == 4 * cells) by (nonlinear_arith)
        requires
            cells == width * height,
    ;
    if cells > (isize::MAX as usize) / 4 {
        return Err(RasterError::TooLarge);
    }
    if limit == 0 {
        return Err(RasterError::ZeroLimit);
    }
    Ok(cells)
}

/// Examines a raster request and paints it if it is valid; refuses it with
/// its first fault otherwise, before any buffer is made.
pub fn try_mandelbrot_screen(
    width: usize,
    height: usize,
    counts: &[usize],
    limit: usize,
) -> (result: Result<Screen, RasterError>)
    ensures
        result is Ok <==> valid_request(width, height, counts@, limit),
        result matches Ok(screen) ==> screen.wf() && screen.width() == width && screen.height()
            == height && screen@ == raster_bytes(counts@, limit),
        result matches Err(fault) ==> request_error(width, height, counts@, limit) == Some(fault),
{
    let cells: usize = match sample_count(width, height, limit) {
        Ok(cells) => cells,
        Err(fault) => {
            return Err(fault);
        },
    };
    if counts.len() != cells {
        return Err(RasterError::CountsLength);
    }
    for i in 0..cells
        invariant
            frame_error(width, height, limit) is None,
            cells == width * height,
            cells == counts@.len(),
            forall|j: int| 0 <= j < i ==> counts@[j] <= limit,
    {
        if counts[i] > limit {
            assert(0 <= i < counts@.len() && counts@[i as int] > limit);
            return Err(RasterError::CountAboveLimit);
        }
    }
    Ok(mandelbrot_screen(width, height, counts, limit))
}

/// A gray level lies between black and white.
pub proof fn lemma_gray_level_bounds(k: int, limit: int)
    requires
        1 <= limit,
        0 <= k <= limit,
    ensures
        0 <= gray_level(k, limit) <= 255,
{
    lemma_gray_level_ends(limit);
    lemma_gray_level_monotonic(0, k, limit);
    lemma_gray_level_monotonic(k, limit, limit);
}

/// A larger escape count never gives a darker gray.
pub proof fn lemma_gray_level_monotonic(j: int, k: int, limit: int)
    requires
        1 <= limit,
        j <= k,
    ensures
        gray_level(j, limit) <= gray_level(k, limit),
{
    vstd::arithmetic::div_mod::lemma_div_is_ordered(j * 255, k * 255, limit);
}

/// An escape count of zero is black, and the limit itself is white.
pub proof fn lemma_gray_level_ends(limit: int)
    requires
        1 <= limit,
    ensures
        gray_level(0, limit) == 0,
        gray_level(limit, limit) == 255,
{
    vstd::arithmetic::div_mod::lemma_fundamental_div_mod_converse(0, limit, 0, 0);
    assert(limit * 255 == 255 * limit + 0) by (nonlinear_arith);
    vstd::arithmetic::div_mod::lemma_fundamental_div_mod_converse(limit * 255, limit, 255, 0);
}

/// A request has no fault exactly when it is valid.
pub proof fn lemma_request_error(width: usize, height: usize, counts: Seq<usize>, limit: usize)
    ensures
        valid_request(width, height, counts, limit) <==> request_error(width, height, counts, limit)
            is None,
{
}

/// In a painted raster, the pixel at `(w, h)` is the gray of the escape
/// count at index `width * h + w`.
pub proof fn lemma_raster_pixel(
    screen: Screen,
    counts: Seq<usize>,
    limit: usize,
    w: int,
    h: int,
)
    requires
        screen.wf(),
        valid_request(screen.width(), screen.height(), counts, limit),
        screen@ == raster_bytes(counts, limit),
        0 <= w < screen.width(),
        0 <= h < screen.height(),
    ensures
        0 <= screen.width() * h + w < counts.len(),
        screen.pixel(w, h) == gray(
            gray_level(counts[screen.width() * h + w] as int, limit as int) as u8,
        ),
{
    lemma_offset_in_bounds(screen.width() as int, screen.height() as int, w, h);
    let at = offset(screen.width() as int, w, h);
    assert(screen@.subrange(at, at + 4) =~= gray(
        gray_level(counts[screen.width() * h + w] as int, limit as int) as u8,
    ));
}

} // verus!
