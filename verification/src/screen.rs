//! The pixel buffer: a flat, row-major grid of four-channel pixels.
//!
//! Pixel `(w, h)` of a grid `width` pixels wide occupies the four bytes that
//! start at `4 * (width * h + w)`. A written pixel is gray: its three colour
//! channels carry the same value and its fourth channel is fully opaque.

use vstd::prelude::*;

verus! {

/// Value of the fourth channel of every written pixel: fully opaque.
pub const OPAQUE: u8 = 255;

/// Index of the first byte of pixel `(w, h)` in a buffer `width` pixels wide.
pub open spec fn offset(width: int, w: int, h: int) -> int {
    4 * (width * h + w)
}

/// The byte sequence `bytes` after a gray pixel of value `v` has been written
/// at byte index `at`.
pub open spec fn with_pixel(bytes: Seq<u8>, at: int, v: u8) -> Seq<u8> {
    bytes.update(at, v).update(at + 1, v).update(at + 2, v).update(at + 3, OPAQUE)
}

/// The four bytes of a gray pixel of value `v`.
pub open spec fn gray(v: u8) -> Seq<u8> {
    seq![v, v, v, OPAQUE]
}

/// A `width` by `height` grid of pixels, stored row by row, four bytes each.
///
/// Its view is the byte sequence in storage order.
#[derive(Debug)]
pub struct Screen {
    bytes: Vec<u8>,
    width: usize,
    height: usize,
}

impl View for Screen {
    type V = Seq<u8>;

    closed spec fn view(&self) -> Seq<u8> {
        self.bytes@
    }
}

/// What a display surface needs to show a buffer: the bytes and the width of
/// a row in pixels. The surface derives the number of rows from the two.
#[derive(Clone, Copy, Debug)]
pub struct ImagePayload<'a> {
    pub bytes: &'a [u8],
    pub width: usize,
}

impl<'a> ImagePayload<'a> {
    /// The bytes make up whole rows of `width` four-byte pixels.
    pub open spec fn wf(&self) -> bool {
        &&& self.width > 0
        &&& self.bytes@.len() as int % (4 * self.width) == 0
    }

    /// Number of rows that a surface derives from the length and the width.
    pub open spec fn rows(&self) -> int {
        self.bytes@.len() as int / (4 * self.width)
    }

    /// This payload carries exactly the state of `screen`.
    pub open spec fn exports(&self, screen: &Screen) -> bool {
        &&& self.bytes@ == screen@
        &&& self.width == screen.width()
    }
}

impl Screen {
    /// Width of the grid in pixels.
    pub closed spec fn spec_width(&self) -> usize {
        self.width
    }

    /// Height of the grid in pixels.
    pub closed spec fn spec_height(&self) -> usize {
        self.height
    }

    /// Both dimensions are positive and the buffer holds exactly four bytes
    /// per pixel.
    #[verifier::type_invariant]
    pub open spec fn wf(&self) -> bool {
        &&& self.width() > 0
        &&& self.height() > 0
        &&& self@.len() == 4 * self.width() * self.height()
    }

    /// The four bytes stored for pixel `(w, h)`.
    pub open spec fn pixel(&self, w: int, h: int) -> Seq<u8> {
        let at = offset(self.width() as int, w, h);
        self@.subrange(at, at + 4)
    }

    /// Creates a buffer of the given dimensions with every byte zero.
    ///
    /// Both dimensions must be positive, and the buffer must not exceed the
    /// largest allocation the machine allows.
    pub fn new(width: usize, height: usize) -> (screen: Self)
        requires
            width > 0,
            height > 0,
            4 * width * height <= isize::MAX,
        ensures
            screen.wf(),
            screen.width() == width,
            screen.height() == height,
            screen@.len() == 4 * width * height,
            screen@ == Seq::new((4 * width * height) as nat, |i: int| 0u8),
    {
        assert(4 * width <= 4 * width * height) by (nonlinear_arith)
            requires
                height >= 1,
        ;
        let size: usize = 4 * width * height;
        let mut bytes: Vec<u8> = Vec::with_capacity(size);
        bytes.resize(size, 0);
        Screen { bytes, width, height }
    }

    /// Width of the grid in pixels.
    #[verifier::when_used_as_spec(spec_width)]
    pub fn width(&self) -> (width: usize)
        ensures
            width == self.spec_width(),
            width > 0,
    {
        proof {
            use_type_invariant(self);
        }
        self.width
    }

    /// Height of the grid in pixels.
    #[verifier::when_used_as_spec(spec_height)]
    pub fn height(&self) -> (height: usize)
        ensures
            height == self.spec_height(),
            height > 0,
    {
        proof {
            use_type_invariant(self);
        }
        self.height
    }

    /// The bytes of the buffer, in storage order.
    pub fn bytes(&self) -> (bytes: &[u8])
        ensures
            bytes@ == self@,
            bytes@.len() == 4 * self.width() * self.height(),
    {
        proof {
            use_type_invariant(self);
        }
        self.bytes.as_slice()
    }

    /// Writes the gray value `v` at pixel `(w, h)`: the three colour channels
    /// get `v` and the fourth is set fully opaque. No other byte changes.
    pub fn put_pixel(&mut self, w: usize, h: usize, v: u8)
        requires
            w < old(self).width(),
            h < old(self).height(),
        ensures
            final(self).wf(),
            final(self).width() == old(self).width(),
            final(self).height() == old(self).height(),
            final(self)@ == with_pixel(
                old(self)@,
                offset(old(self).width() as int, w as int, h as int),
                v,
            ),
    {
        proof {
            use_type_invariant(&*self);
            lemma_offset_in_bounds(self.width as int, self.height as int, w as int, h as int);
            assert(self.bytes@.len() == self.bytes.len());
        }
        let offset: usize = 4 * (self.width * h + w);
        self.bytes[offset] = v;
        self.bytes[offset + 1] = v;
        self.bytes[offset + 2] = v;
        self.bytes[offset + 3] = OPAQUE;
    }

    /// Writes like `put_pixel` where `(w, h)` lies inside the grid, and
    /// reports whether it did. A coordinate outside the grid is refused and
    /// leaves the buffer as it was.
    pub fn try_put_pixel(&mut self, w: usize, h: usize, v: u8) -> (written: bool)
        ensures
            written == (w < old(self).width() && h < old(self).height()),
            final(self).wf(),
            final(self).width() == old(self).width(),
            final(self).height() == old(self).height(),
            written ==> final(self)@ == with_pixel(
                old(self)@,
                offset(old(self).width() as int, w as int, h as int),
                v,
            ),
            !written ==> final(self)@ == old(self)@,
    {
        proof {
            use_type_invariant(&*self);
        }
        if w < self.width && h < self.height {
            self.put_pixel(w, h, v);
            true
        } else {
            false
        }
    }

    /// Hands the buffer out for display: its bytes, borrowed, and its width.
    /// The buffer is not changed, and the number of rows that a surface
    /// derives from the payload is the height of the grid.
    pub fn image_data(&self) -> (payload: ImagePayload<'_>)
        ensures
            payload.exports(self),
            payload.wf(),
            payload.rows() == self.height(),
    {
        proof {
            use_type_invariant(self);
            lemma_rows(self@.len() as int, self.width as int, self.height as int);
        }
        ImagePayload { bytes: self.bytes.as_slice(), width: self.width }
    }
}

/// Every pixel inside the grid lies wholly inside the buffer.
pub proof fn lemma_offset_in_bounds(width: int, height: int, w: int, h: int)
    requires
        0 <= w < width,
        0 <= h < height,
    ensures
        0 <= width * h + w < width * height,
        0 <= offset(width, w, h),
        offset(width, w, h) + 4 <= 4 * width * height,
{
    assert(0 <= width * h && width * h + width <= width * height) by (nonlinear_arith)
        requires
            0 <= h,
            h + 1 <= height,
            0 < width,
    ;
    assert(4 * (width * height) == 4 * width * height) by (nonlinear_arith);
}

/// A buffer of `height` rows of `width` pixels divides evenly into rows, and
/// dividing its length by the length of a row gives `height` back.
pub proof fn lemma_rows(len: int, width: int, height: int)
    requires
        width > 0,
        height >= 0,
        len == 4 * width * height,
    ensures
        len % (4 * width) == 0,
        len / (4 * width) == height,
{
    assert(len == height * (4 * width) + 0) by (nonlinear_arith)
        requires
            len == 4 * width * height,
    ;
    vstd::arithmetic::div_mod::lemma_fundamental_div_mod_converse(len, 4 * width, height, 0);
}

/// Two different pixels of a grid share no byte: their offsets lie at least
/// four apart.
pub proof fn lemma_offsets_apart(width: int, w: int, h: int, w2: int, h2: int)
    requires
        0 <= w < width,
        0 <= w2 < width,
        0 <= h,
        0 <= h2,
        (w, h) != (w2, h2),
    ensures
        offset(width, w, h) + 4 <= offset(width, w2, h2) || offset(width, w2, h2) + 4 <= offset(
            width,
            w,
            h,
        ),
{
    if h < h2 {
        assert(width * h + width <= width * h2) by (nonlinear_arith)
            requires
                h + 1 <= h2,
                0 < width,
        ;
    } else if h2 < h {
        assert(width * h2 + width <= width * h) by (nonlinear_arith)
            requires
                h2 + 1 <= h,
                0 < width,
        ;
    }
}

/// Writing one pixel makes it the gray of the value written and leaves
/// every other pixel of the grid as it was.
pub proof fn lemma_put_pixel_isolated(
    before: Screen,
    after: Screen,
    w: int,
    h: int,
    v: u8,
    w2: int,
    h2: int,
)
    requires
        before.wf(),
        after.width() == before.width(),
        after@ == with_pixel(before@, offset(before.width() as int, w, h), v),
        0 <= w < before.width(),
        0 <= h < before.height(),
        0 <= w2 < before.width(),
        0 <= h2 < before.height(),
    ensures
        after.pixel(w, h) == gray(v),
        (w2, h2) != (w, h) ==> after.pixel(w2, h2) == before.pixel(w2, h2),
{
    let width = before.width() as int;
    lemma_offset_in_bounds(width, before.height() as int, w, h);
    lemma_offset_in_bounds(width, before.height() as int, w2, h2);
    assert(after.pixel(w, h) =~= gray(v));
    if (w2, h2) != (w, h) {
        lemma_offsets_apart(width, w, h, w2, h2);
        assert(after.pixel(w2, h2) =~= before.pixel(w2, h2));
    }
}

/// Two exports of one buffer, with no write between them, carry the same
/// bytes and the same width.
pub proof fn lemma_export_repeatable(screen: Screen, first: ImagePayload, second: ImagePayload)
    requires
        first.exports(&screen),
        second.exports(&screen),
    ensures
        first.bytes@ == second.bytes@,
        first.width == second.width,
{
}

} // verus!
