//! The pixel grid that images are stacked on and pages are cut from.

use vstd::prelude::*;
use crate::models::FillColor;

verus! {

/// A picture as a mathematical value: its size and its bytes, four per
/// pixel (red, green, blue, alpha), row after row from the top.
pub struct Pixels {
    pub width: nat,
    pub height: nat,
    pub bytes: Seq<u8>,
}

impl Pixels {
    /// There are exactly four bytes for each pixel.
    pub open spec fn wf(self) -> bool {
        self.bytes.len() == 4 * self.width * self.height
    }

    /// The pixel in column `x` of row `y` exists.
    pub open spec fn contains(self, x: int, y: int) -> bool {
        0 <= x < self.width && 0 <= y < self.height
    }

    /// Where the bytes of the pixel in column `x` of row `y` begin.
    pub open spec fn offset(self, x: int, y: int) -> int {
        4 * (y * self.width + x)
    }

    /// Channel `c` (0 red, 1 green, 2 blue, 3 alpha) of a pixel.
    pub open spec fn channel(self, x: int, y: int, c: int) -> u8 {
        self.bytes[self.offset(x, y) + c]
    }

    /// The brightness of a pixel: the mean of its three colour channels,
    /// rounded down.
    pub open spec fn gray(self, x: int, y: int) -> int {
        (self.channel(x, y, 0) + self.channel(x, y, 1) + self.channel(x, y, 2)) / 3
    }

    /// The rows from `from` up to, not including, `to`.
    pub open spec fn rows(self, from: int, to: int) -> Pixels {
        Pixels {
            width: self.width,
            height: (to - from) as nat,
            bytes: self.bytes.subrange(4 * self.width * from, 4 * self.width * to),
        }
    }

    /// A picture of one colour, opaque everywhere.
    pub open spec fn filled(width: nat, height: nat, fill: FillColor) -> Pixels {
        Pixels {
            width,
            height,
            bytes: Seq::new(
                4 * width * height,
                |i: int|
                    if i % 4 == 3 {
                        255u8
                    } else {
                        fill.level()
                    },
            ),
        }
    }

    /// The picture at `(x, y)` of another one covers that one's pixel
    /// `(px, py)`.
    pub open spec fn covers(self, x: int, y: int, px: int, py: int) -> bool {
        x <= px < x + self.width && y <= py < y + self.height
    }

    /// One byte of `self` with `top` copied onto it, the upper left corner
    /// of `top` at `(x, y)`: the byte of `top` where `top` covers the pixel,
    /// the byte of `self` elsewhere.
    pub open spec fn pasted_byte(self, top: Pixels, x: int, y: int, i: int) -> u8 {
        let px = (i / 4) % (self.width as int);
        let py = (i / 4) / (self.width as int);
        if top.covers(x, y, px, py) {
            top.channel(px - x, py - y, i % 4)
        } else {
            self.bytes[i]
        }
    }

    /// `self` with `top` copied onto it, the upper left corner of `top` at
    /// `(x, y)`. The size stays; what of `top` reaches past an edge is left
    /// out.
    pub open spec fn pasted(self, top: Pixels, x: int, y: int) -> Pixels {
        Pixels {
            width: self.width,
            height: self.height,
            bytes: Seq::new(self.bytes.len(), |i: int| self.pasted_byte(top, x, y, i)),
        }
    }

    /// `self` with `image` copied onto a blank strip below it, `x` columns
    /// from the left edge.
    pub open spec fn stacked(self, image: Pixels, x: int, fill: FillColor) -> Pixels {
        let blank = Pixels::filled(self.width, self.height + image.height, fill);
        blank.pasted(self, 0, 0).pasted(image, x, self.height as int)
    }

    /// The rows that `image` fills on a canvas of `width` columns when it is
    /// put `x` columns from the left edge: a blank strip as tall as the image
    /// with a copy of the image on it.
    pub open spec fn strip(width: nat, image: Pixels, x: int, fill: FillColor) -> Pixels {
        Pixels::filled(width, image.height, fill).pasted(image, x, 0)
    }

    /// One channel of a pixel of `self.stacked(image, x, fill)`: above the
    /// seam that of `self`, below it that of `image` where `image` covers
    /// the pixel, and that of the fill colour elsewhere.
    pub open spec fn stacked_channel(
        self,
        image: Pixels,
        x: int,
        fill: FillColor,
        px: int,
        py: int,
        c: int,
    ) -> u8 {
        if py < self.height {
            self.channel(px, py, c)
        } else if x <= px < x + image.width {
            image.channel(px - x, py - self.height, c)
        } else if c == 3 {
            255u8
        } else {
            fill.level()
        }
    }
}

/// Every byte of a pixel inside a picture lies inside its bytes.
pub proof fn lemma_offset_in_bounds(width: nat, height: nat, x: int, y: int, c: int)
    requires
        0 <= x < width,
        0 <= y < height,
        0 <= c < 4,
    ensures
        0 <= 4 * (y * width + x) + c < 4 * width * height,
        0 <= y * width + x < width * height,
{
    assert(0 <= y * width && y * width + width <= height * width) by (nonlinear_arith)
        requires
            0 <= y < height,
            0 <= width,
    ;
    assert(height * width == width * height) by (nonlinear_arith);
    assert(4 * width * height == 4 * (width * height)) by (nonlinear_arith);
}

/// A picture with another copied onto it shows the other where the other
/// covers it, and itself elsewhere.
pub proof fn lemma_pasted_channel(
    bottom: Pixels,
    top: Pixels,
    x: int,
    y: int,
    px: int,
    py: int,
    c: int,
)
    requires
        bottom.wf(),
        bottom.contains(px, py),
        0 <= c < 4,
    ensures
        bottom.pasted(top, x, y).wf(),
        bottom.pasted(top, x, y).channel(px, py, c) == (if top.covers(x, y, px, py) {
            top.channel(px - x, py - y, c)
        } else {
            bottom.channel(px, py, c)
        }),
{
    let w = bottom.width as int;
    let k = py * w + px;
    lemma_offset_in_bounds(bottom.width, bottom.height, px, py, c);
    vstd::arithmetic::div_mod::lemma_fundamental_div_mod_converse(k, w, py, px);
    assert((4 * k + c) / 4 == k && (4 * k + c) % 4 == c);
}

/// What stacking gives, pixel by pixel: the canvas above the seam, the
/// image below it where the image lies, and the fill colour beside it.
pub proof fn lemma_stacked_channel(
    canvas: Pixels,
    image: Pixels,
    x: int,
    fill: FillColor,
    px: int,
    py: int,
    c: int,
)
    requires
        canvas.wf(),
        0 <= x,
        0 <= px < canvas.width,
        0 <= py < canvas.height + image.height,
        0 <= c < 4,
    ensures
        canvas.stacked(image, x, fill).wf(),
        canvas.stacked(image, x, fill).width == canvas.width,
        canvas.stacked(image, x, fill).height == canvas.height + image.height,
        canvas.stacked(image, x, fill).channel(px, py, c) == canvas.stacked_channel(
            image,
            x,
            fill,
            px,
            py,
            c,
        ),
{
    let blank = Pixels::filled(canvas.width, canvas.height + image.height, fill);
    let upper = blank.pasted(canvas, 0, 0);
    lemma_offset_in_bounds(blank.width, blank.height, px, py, c);
    assert(blank.bytes.len() == 4 * blank.width * blank.height);
    lemma_pasted_channel(blank, canvas, 0, 0, px, py, c);
    lemma_pasted_channel(upper, image, x, canvas.height as int, px, py, c);
}

/// The pixel that a byte belongs to: byte `i` of a picture of `w` columns
/// is channel `i % 4` of the pixel in column `(i / 4) % w` of row
/// `(i / 4) / w`, and that row lies above row `h` exactly if the byte lies
/// before the bytes of row `h`.
pub proof fn lemma_pixel_of_byte(w: int, h: int, i: int)
    requires
        0 < w,
        0 <= h,
        0 <= i,
    ensures
        0 <= (i / 4) % w < w,
        0 <= (i / 4) / w,
        i == 4 * (((i / 4) / w) * w + (i / 4) % w) + i % 4,
        (i / 4) / w < h <==> i < 4 * w * h,
{
    let q = i / 4;
    let px = q % w;
    let py = q / w;
    vstd::arithmetic::div_mod::lemma_fundamental_div_mod(q, w);
    vstd::arithmetic::div_mod::lemma_mod_pos_bound(q, w);
    assert(w * py == py * w) by (nonlinear_arith);
    assert(0 <= py) by (nonlinear_arith)
        requires
            q == w * py + px,
            0 <= q,
            0 <= px < w,
            0 < w,
    ;
    assert(py < h <==> q < w * h) by (nonlinear_arith)
        requires
            q == w * py + px,
            0 <= px < w,
            0 < w,
    ;
    assert(4 * w * h == 4 * (w * h)) by (nonlinear_arith);
}

/// A stacked picture has four bytes for each of its pixels.
pub proof fn lemma_stacked_wf(canvas: Pixels, image: Pixels, x: int, fill: FillColor)
    ensures
        canvas.stacked(image, x, fill).wf(),
        canvas.stacked(image, x, fill).width == canvas.width,
        canvas.stacked(image, x, fill).height == canvas.height + image.height,
        Pixels::strip(canvas.width, image, x, fill).wf(),
        Pixels::strip(canvas.width, image, x, fill).width == canvas.width,
        Pixels::strip(canvas.width, image, x, fill).height == image.height,
{
}

/// Stacking adds rows and changes none: the bytes of the stacked picture
/// are those of the canvas and, after them, those of the strip that the
/// image fills.
pub proof fn lemma_stacked_bytes(canvas: Pixels, image: Pixels, x: int, fill: FillColor)
    requires
        canvas.wf(),
    ensures
        canvas.stacked(image, x, fill).bytes == canvas.bytes + Pixels::strip(
            canvas.width,
            image,
            x,
            fill,
        ).bytes,
{
    let w = canvas.width as int;
    let h = canvas.height as int;
    let blank = Pixels::filled(canvas.width, canvas.height + image.height, fill);
    let upper = blank.pasted(canvas, 0, 0);
    let whole = canvas.stacked(image, x, fill);
    let below = Pixels::filled(canvas.width, image.height, fill);
    let strip = Pixels::strip(canvas.width, image, x, fill);
    assert(4 * w * (h + image.height) == 4 * w * h + 4 * w * image.height) by (nonlinear_arith);
    assert(4 * w * h == 4 * (w * h)) by (nonlinear_arith);
    let joined = canvas.bytes + strip.bytes;
    assert(whole.bytes.len() == joined.len());
    assert forall|i: int| 0 <= i < whole.bytes.len() implies whole.bytes[i] == joined[i] by {
        if w == 0 {
            assert(4 * w * (h + image.height) == 0) by (nonlinear_arith)
                requires
                    w == 0,
            ;
        } else {
            let px = (i / 4) % w;
            let py = (i / 4) / w;
            lemma_pixel_of_byte(w, h, i);
            if i < 4 * w * h {
                assert(canvas.covers(0, 0, px, py));
                assert(!image.covers(x, h, px, py));
                assert(canvas.offset(px, py) + i % 4 == i);
            } else {
                let j = i - 4 * w * h;
                assert(!canvas.covers(0, 0, px, py));
                assert(j / 4 == i / 4 - w * h && j % 4 == i % 4);
                assert((py - h) * w + px == py * w + px - w * h) by (nonlinear_arith);
                vstd::arithmetic::div_mod::lemma_fundamental_div_mod_converse(
                    j / 4,
                    w,
                    py - h,
                    px,
                );
                assert(image.covers(x, 0, px, py - h) == image.covers(x, h, px, py));
                assert(joined[i] == strip.bytes[j]);
                assert(strip.bytes[j] == below.pasted_byte(image, x, 0, j));
                assert(whole.bytes[i] == upper.pasted_byte(image, x, h, i));
                assert(upper.bytes[i] == blank.bytes[i]);
            }
        }
    }
    assert(whole.bytes =~= joined);
}

/// An image that is as wide as the canvas and goes to its left edge fills
/// its strip alone: the bytes of the strip are those of the image.
pub proof fn lemma_strip_of_full_width(image: Pixels, fill: FillColor)
    requires
        image.wf(),
    ensures
        Pixels::strip(image.width, image, 0, fill).bytes == image.bytes,
{
    let w = image.width as int;
    let strip = Pixels::strip(image.width, image, 0, fill);
    assert(4 * w * image.height == 4 * (w * image.height)) by (nonlinear_arith);
    assert forall|i: int| 0 <= i < strip.bytes.len() implies strip.bytes[i] == image.bytes[i] by {
        if w == 0 {
            assert(4 * w * image.height == 0) by (nonlinear_arith)
                requires
                    w == 0,
            ;
        } else {
            lemma_pixel_of_byte(w, image.height as int, i);
            let px = (i / 4) % w;
            let py = (i / 4) / w;
            assert(image.covers(0, 0, px, py));
            assert(image.offset(px, py) + i % 4 == i);
        }
    }
    assert(strip.bytes =~= image.bytes);
}

/// An owned picture of four bytes per pixel.
pub struct Canvas {
    width: u32,
    height: u32,
    data: Vec<u8>,
}

impl View for Canvas {
    type V = Pixels;

    closed spec fn view(&self) -> Pixels {
        Pixels { width: self.width as nat, height: self.height as nat, bytes: self.data@ }
    }
}

impl Canvas {
    #[verifier::type_invariant]
    spec fn well_formed(&self) -> bool {
        self.data@.len() == 4 * self.width * self.height
    }

    /// A canvas of one colour.
    pub fn filled(width: u32, height: u32, fill: FillColor) -> (r: Canvas)
        ensures
            r@ == Pixels::filled(width as nat, height as nat, fill),
    {
        let level = fill.rgba()[0];
        assert((width as u64) * (height as u64) <= u64::MAX) by (nonlinear_arith)
            requires
                width <= u32::MAX,
                height <= u32::MAX,
        ;
        let count: u64 = (width as u64) * (height as u64);
        let mut data: Vec<u8> = Vec::new();
        let mut i: u64 = 0;
        while i < count
            invariant
                i <= count,
                data@.len() == 4 * i,
                level == fill.level(),
                forall|k: int|
                    0 <= k < data@.len() ==> data@[k] == (if k % 4 == 3 {
                        255u8
                    } else {
                        level
                    }),
            decreases count - i,
        {
            data.push(level);
            data.push(level);
            data.push(level);
            data.push(255);
            i = i + 1;
        }
        assert(4 * (width as nat) * (height as nat) == 4 * count) by (nonlinear_arith)
            requires
                count == (width as u64) * (height as u64),
        ;
        assert(data@ =~= Pixels::filled(width as nat, height as nat, fill).bytes);
        Canvas { width, height, data }
    }

    /// Takes bytes as the pixels of a picture of the given size. The bytes
    /// must suffice; what lies beyond the last pixel is dropped.
    pub fn from_raw(width: u32, height: u32, data: Vec<u8>) -> (r: Option<Canvas>)
        ensures
            r is Some <==> data@.len() >= 4 * width * height,
            r is Some ==> r->0@ == (Pixels {
                width: width as nat,
                height: height as nat,
                bytes: data@.take(4 * width * height),
            }),
    {
        assert(4 * (width as u128) * (height as u128) <= u128::MAX) by (nonlinear_arith)
            requires
                width <= u32::MAX,
                height <= u32::MAX,
        ;
        let needed: u128 = 4 * (width as u128) * (height as u128);
        if (data.len() as u128) < needed {
            return None;
        }
        let mut data = data;
        data.truncate(needed as usize);
        Some(Canvas { width, height, data })
    }

    /// The number of columns.
    pub fn width(&self) -> (w: u32)
        ensures
            w == self@.width,
            self@.wf(),
    {
        proof {
            use_type_invariant(self);
        }
        self.width
    }

    /// The number of rows.
    pub fn height(&self) -> (h: u32)
        ensures
            h == self@.height,
            self@.wf(),
    {
        proof {
            use_type_invariant(self);
        }
        self.height
    }

    /// The bytes of the picture, row after row.
    pub fn as_raw(&self) -> (bytes: &Vec<u8>)
        ensures
            bytes@ == self@.bytes,
    {
        &self.data
    }

    /// Gives up the canvas for its bytes.
    pub fn into_raw(self) -> (bytes: Vec<u8>)
        ensures
            bytes@ == self@.bytes,
    {
        self.data
    }

    /// One channel of one pixel.
    pub fn channel(&self, x: u32, y: u32, c: u8) -> (v: u8)
        requires
            self@.contains(x as int, y as int),
            c < 4,
        ensures
            v == self@.channel(x as int, y as int, c as int),
    {
        proof {
            use_type_invariant(self);
            lemma_offset_in_bounds(
                self.width as nat,
                self.height as nat,
                x as int,
                y as int,
                c as int,
            );
        }
        let len = self.data.len();
        assert(4 * (y * self.width + x) + c < len);
        assert(0 <= y * self.width) by (nonlinear_arith)
            requires
                0 <= y,
                0 <= self.width,
        ;
        let at: usize = 4 * ((y as usize) * (self.width as usize) + (x as usize)) + (c as usize);
        self.data[at]
    }

    /// The brightness of one pixel.
    pub fn gray(&self, x: u32, y: u32) -> (v: u8)
        requires
            self@.contains(x as int, y as int),
        ensures
            v == self@.gray(x as int, y as int),
    {
        let r = self.channel(x, y, 0) as u16;
        let g = self.channel(x, y, 1) as u16;
        let b = self.channel(x, y, 2) as u16;
        ((r + g + b) / 3) as u8
    }

    /// Puts `image` below the canvas, `x_offset` columns from the left edge:
    /// a new canvas as wide as this one and as tall as both, of the fill
    /// colour, receives a copy of this canvas at its top and a copy of
    /// `image` below it. What of `image` reaches past the right edge is left
    /// out. There is no result when the two heights together exceed what a
    /// height can hold.
    pub fn stack(&self, image: &Canvas, x_offset: u32, fill: FillColor) -> (r: Option<Canvas>)
        ensures
            r is Some <==> self@.height + image@.height <= u32::MAX,
            r is Some ==> {
                let out = r->0@;
                &&& out == self@.stacked(image@, x_offset as int, fill)
                &&& out.width == self@.width
                &&& out.height == self@.height + image@.height
                &&& forall|px: int, py: int, c: int|
                    out.contains(px, py) && 0 <= c < 4 ==> #[trigger] out.channel(px, py, c)
                        == self@.stacked_channel(image@, x_offset as int, fill, px, py, c)
            },
    {
        proof {
            use_type_invariant(self);
            use_type_invariant(image);
        }
        if image.height > u32::MAX - self.height {
            return None;
        }
        let blank = Canvas::filled(self.width, self.height + image.height, fill);
        proof {
            use_type_invariant(&blank);
        }
        let upper = paste(blank, self, 0, 0);
        let whole = paste(upper, image, x_offset, self.height);
        proof {
            let out = whole@;
            assert forall|px: int, py: int, c: int|
                out.contains(px, py) && 0 <= c < 4 implies #[trigger] out.channel(px, py, c)
                == self@.stacked_channel(image@, x_offset as int, fill, px, py, c) by {
                lemma_stacked_channel(self@, image@, x_offset as int, fill, px, py, c);
            }
        }
        Some(whole)
    }

    /// Cuts the canvas in two below its first `cut` rows.
    pub fn split_rows(self, cut: u32) -> (parts: (Canvas, Canvas))
        requires
            cut <= self@.height,
        ensures
            parts.0@ == self@.rows(0, cut as int),
            parts.1@ == self@.rows(cut as int, self@.height as int),
    {
        proof {
            use_type_invariant(&self);
            assert(0 <= 4 * self.width * cut <= 4 * self.width * self.height) by (nonlinear_arith)
                requires
                    0 <= cut <= self.height,
                    0 <= self.width,
            ;
            assert(4 * self.width * (self.height - cut) == 4 * self.width * self.height - 4
                * self.width * cut) by (nonlinear_arith);
        }
        let ghost whole = self@;
        let width = self.width;
        let rest_height = self.height - cut;
        let mut upper = self.data;
        let len = upper.len();
        assert(4 * (width * cut) == 4 * width * cut && 0 <= width * cut) by (nonlinear_arith)
            requires
                0 <= width,
                0 <= cut,
        ;
        let at: usize = 4 * ((width as usize) * (cut as usize));
        let lower = upper.split_off(at);
        assert(upper@ =~= whole.rows(0, cut as int).bytes);
        assert(lower@ =~= whole.rows(cut as int, whole.height as int).bytes);
        (
            Canvas { width, height: cut, data: upper },
            Canvas { width, height: rest_height, data: lower },
        )
    }
}

/// Copies `top` onto `bottom` with its upper left corner at `(x, y)`, by
/// `image::imageops::replace`. That function walks the pixels of `bottom`
/// that `top` covers and writes over each the pixel of `top` above it.
/// Nothing else of `bottom` changes.
#[verifier::external_body]
fn paste(bottom: Canvas, top: &Canvas, x: u32, y: u32) -> (r: Canvas)
    requires
        bottom@.wf(),
        top@.wf(),
    ensures
        r@ == bottom@.pasted(top@, x as int, y as int),
{
    let (width, height) = (bottom.width, bottom.height);
    let mut under = image::RgbaImage::from_raw(width, height, bottom.data).unwrap();
    let over = image::ImageBuffer::<image::Rgba<u8>, &[u8]>::from_raw(
        top.width,
        top.height,
        top.data.as_slice(),
    ).unwrap();
    image::imageops::replace(&mut under, &over, i64::from(x), i64::from(y));
    Canvas { width, height, data: under.into_raw() }
}

} // verus!
