//! Bitmaps and the extraction of a rectangle from one.

use vstd::arithmetic::div_mod::lemma_fundamental_div_mod_converse;
use vstd::prelude::*;

verus! {

/// An axis-aligned rectangle in pixel coordinates: its top-left corner and
/// its size.
#[derive(Clone, Copy, Debug, PartialEq, Eq, Structural)]
pub struct Rect {
    pub x: usize,
    pub y: usize,
    pub w: usize,
    pub h: usize,
}

/// What a bitmap holds: its size and its pixels, row after row.
pub ghost struct BitmapView<P> {
    pub width: nat,
    pub height: nat,
    pub pixels: Seq<P>,
}

impl<P> BitmapView<P> {
    /// There is exactly one pixel for each position.
    pub open spec fn wf(self) -> bool {
        self.pixels.len() == self.width * self.height
    }

    /// The pixel in column `x` of row `y`.
    pub open spec fn at(self, x: int, y: int) -> P {
        self.pixels[y * self.width + x]
    }

    /// Whether `rect` lies inside this bitmap.
    pub open spec fn contains_rect(self, rect: Rect) -> bool {
        rect.x + rect.w <= self.width && rect.y + rect.h <= self.height
    }

    /// The part of this bitmap that `rect` covers, as a bitmap of its own.
    pub open spec fn extract(self, rect: Rect) -> BitmapView<P> {
        BitmapView {
            width: rect.w as nat,
            height: rect.h as nat,
            pixels: Seq::new(
                (rect.w * rect.h) as nat,
                |k: int| self.at(rect.x + k % (rect.w as int), rect.y + k / (rect.w as int)),
            ),
        }
    }
}

/// Position `(x, y)` of a bitmap `width` wide and `height` high is a valid
/// index into its rows laid end to end.
pub proof fn lemma_position_in_range(width: int, height: int, x: int, y: int)
    requires
        0 <= x < width,
        0 <= y < height,
    ensures
        0 <= y * width + x < width * height,
{
    assert(y * width + x < width * height) by (nonlinear_arith)
        requires
            0 <= x < width,
            0 <= y < height,
    ;
}

/// Reading pixel `(i, j)` of an extracted rectangle gives the pixel of the
/// source at `(rect.x + i, rect.y + j)`.
pub proof fn lemma_extract_at<P>(source: BitmapView<P>, rect: Rect, i: int, j: int)
    requires
        source.wf(),
        source.contains_rect(rect),
        0 <= i < rect.w,
        0 <= j < rect.h,
    ensures
        source.extract(rect).wf(),
        source.extract(rect).at(i, j) == source.at(rect.x + i, rect.y + j),
{
    let w = rect.w as int;
    lemma_position_in_range(w, rect.h as int, i, j);
    lemma_fundamental_div_mod_converse(j * w + i, w, j, i);
}

/// A rectangular grid of pixels.
pub struct Bitmap<P> {
    buffer: Vec<P>,
    width: usize,
    height: usize,
}

impl<P> View for Bitmap<P> {
    type V = BitmapView<P>;

    closed spec fn view(&self) -> BitmapView<P> {
        BitmapView {
            width: self.width as nat,
            height: self.height as nat,
            pixels: self.buffer@,
        }
    }
}

impl<P> Bitmap<P> {
    /// The invariant of a bitmap: its buffer has one pixel for each position.
    pub open spec fn wf(&self) -> bool {
        &&& self@.wf()
        &&& self@.width <= usize::MAX
        &&& self@.height <= usize::MAX
    }

    /// A bitmap of the given size over `buffer`, which holds the rows one
    /// after another. There is none where the buffer's length is not
    /// `width * height`.
    pub fn new(width: usize, height: usize, buffer: Vec<P>) -> (made: Option<Bitmap<P>>)
        ensures
            made is Some <==> buffer@.len() == width * height,
            made matches Some(bmp) ==> bmp.wf() && bmp@ == (BitmapView {
                width: width as nat,
                height: height as nat,
                pixels: buffer@,
            }),
    {
        assert(buffer@.len() == buffer.len());
        match width.checked_mul(height) {
            Some(area) => {
                if buffer.len() == area {
                    Some(Bitmap { buffer, width, height })
                } else {
                    None
                }
            },
            None => None,
        }
    }

    /// Width in pixels.
    pub fn width(&self) -> (w: usize)
        ensures
            w == self@.width,
    {
        self.width
    }

    /// Height in pixels.
    pub fn height(&self) -> (h: usize)
        ensures
            h == self@.height,
    {
        self.height
    }

    /// The pixels, row after row.
    pub fn buffer(&self) -> (pixels: &Vec<P>)
        ensures
            pixels@ == self@.pixels,
    {
        &self.buffer
    }

    /// The pixels, row after row.
    pub fn into_buffer(self) -> (pixels: Vec<P>)
        ensures
            pixels@ == self@.pixels,
    {
        self.buffer
    }
}

impl<P: Copy> Bitmap<P> {
    /// The pixel in column `x` of row `y`.
    pub fn pixel(&self, x: usize, y: usize) -> (p: P)
        requires
            self.wf(),
            x < self@.width,
            y < self@.height,
        ensures
            p == self@.at(x as int, y as int),
    {
        proof {
            lemma_position_in_range(self.width as int, self.height as int, x as int, y as int);
            assert(self.buffer@.len() == self.buffer.len());
        }
        let index: usize = y * self.width + x;
        self.buffer[index]
    }
}

/// Copies the pixels that `rect` covers out of `input`, row after row.
///
/// The rectangle has to lie inside the bitmap: nothing is clamped or
/// wrapped around.
pub fn extract_rect<P: Copy>(input: &Bitmap<P>, rect: Rect) -> (out: Bitmap<P>)
    requires
        input.wf(),
        input@.contains_rect(rect),
    ensures
        out.wf(),
        out@ == input@.extract(rect),
        forall|i: int, j: int|
            0 <= i < rect.w && 0 <= j < rect.h ==> #[trigger] out@.at(i, j) == input@.at(
                rect.x + i,
                rect.y + j,
            ),
{
    let mut buf: Vec<P> = Vec::new();
    let ghost want = input@.extract(rect);
    let mut j: usize = 0;
    while j < rect.h
        invariant
            input.wf(),
            input@.contains_rect(rect),
            want == input@.extract(rect),
            j <= rect.h,
            buf@.len() == j * rect.w,
            forall|k: int| 0 <= k < buf@.len() ==> buf@[k] == want.pixels[k],
        decreases rect.h - j,
    {
        let mut i: usize = 0;
        while i < rect.w
            invariant
                input.wf(),
                input@.contains_rect(rect),
                want == input@.extract(rect),
                j < rect.h,
                i <= rect.w,
                buf@.len() == j * rect.w + i,
                forall|k: int| 0 <= k < buf@.len() ==> buf@[k] == want.pixels[k],
            decreases rect.w - i,
        {
            proof {
                lemma_position_in_range(rect.w as int, rect.h as int, i as int, j as int);
                lemma_fundamental_div_mod_converse(
                    j * rect.w + i,
                    rect.w as int,
                    j as int,
                    i as int,
                );
            }
            let p: P = input.pixel(rect.x + i, rect.y + j);
            buf.push(p);
            i += 1;
        }
        proof {
            assert(j * rect.w + rect.w == (j + 1) * rect.w) by (nonlinear_arith);
        }
        j += 1;
    }
    proof {
        assert(rect.h * rect.w == rect.w * rect.h) by (nonlinear_arith);
        assert(buf@ =~= want.pixels);
        assert forall|i: int, j: int| 0 <= i < rect.w && 0 <= j < rect.h implies #[trigger] want.at(
            i,
            j,
        ) == input@.at(rect.x + i, rect.y + j) by {
            lemma_extract_at(input@, rect, i, j);
        }
    }
    Bitmap { buffer: buf, width: rect.w, height: rect.h }
}

} // verus!
