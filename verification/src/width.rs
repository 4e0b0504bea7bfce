//! One width for a folder: which width the canvas gets and how an image is
//! brought to it.

use vstd::prelude::*;
use crate::canvas::{lemma_stacked_channel, Canvas, Pixels};
use crate::models::{FillColor, StitchError, WidthMode};

verus! {

/// `w` is the smallest of `widths`.
pub open spec fn is_narrowest(w: u32, widths: Seq<u32>) -> bool {
    &&& widths.contains(w)
    &&& forall|i: int| 0 <= i < widths.len() ==> w <= widths[i]
}

/// `w` is the largest of `widths`.
pub open spec fn is_widest(w: u32, widths: Seq<u32>) -> bool {
    &&& widths.contains(w)
    &&& forall|i: int| 0 <= i < widths.len() ==> w >= widths[i]
}

/// `w` is the width that the canvas of a folder gets: the width of the
/// first image where every image keeps its width or follows the first, the
/// configured width in custom mode, and else the smallest or the largest of
/// the measured widths (the width of the first image if none was measured).
pub open spec fn is_target_width(
    w: u32,
    mode: WidthMode,
    first_width: u32,
    widths: Seq<u32>,
    custom_width: u32,
) -> bool {
    match mode {
        WidthMode::NoEnforcement | WidthMode::AutoUniform => w == first_width,
        WidthMode::Custom => w == custom_width,
        WidthMode::MatchMin => if widths.len() == 0 {
            w == first_width
        } else {
            is_narrowest(w, widths)
        },
        WidthMode::MatchMax => if widths.len() == 0 {
            w == first_width
        } else {
            is_widest(w, widths)
        },
    }
}

/// There is only one target width.
pub proof fn lemma_target_width_unique(
    a: u32,
    b: u32,
    mode: WidthMode,
    first_width: u32,
    widths: Seq<u32>,
    custom_width: u32,
)
    requires
        is_target_width(a, mode, first_width, widths, custom_width),
        is_target_width(b, mode, first_width, widths, custom_width),
    ensures
        a == b,
{
    if widths.len() > 0 && (mode == WidthMode::MatchMin || mode == WidthMode::MatchMax) {
        let i = choose|i: int| 0 <= i < widths.len() && widths[i] == a;
        let j = choose|j: int| 0 <= j < widths.len() && widths[j] == b;
        assert(widths[i] == a && widths[j] == b);
    }
}

/// The smallest of some widths.
fn narrowest(widths: &Vec<u32>) -> (w: u32)
    requires
        widths@.len() > 0,
    ensures
        is_narrowest(w, widths@),
{
    let mut best = widths[0];
    let mut i: usize = 1;
    while i < widths.len()
        invariant
            1 <= i <= widths@.len(),
            exists|k: int| 0 <= k < i && widths@[k] == best,
            forall|k: int| 0 <= k < i ==> best <= widths@[k],
        decreases widths@.len() - i,
    {
        if widths[i] < best {
            best = widths[i];
        }
        i = i + 1;
    }
    best
}

/// The largest of some widths.
fn widest(widths: &Vec<u32>) -> (w: u32)
    requires
        widths@.len() > 0,
    ensures
        is_widest(w, widths@),
{
    let mut best = widths[0];
    let mut i: usize = 1;
    while i < widths.len()
        invariant
            1 <= i <= widths@.len(),
            exists|k: int| 0 <= k < i && widths@[k] == best,
            forall|k: int| 0 <= k < i ==> best >= widths@[k],
        decreases widths@.len() - i,
    {
        if widths[i] > best {
            best = widths[i];
        }
        i = i + 1;
    }
    best
}

/// The width of the canvas of a folder. `widths` are the measured widths of
/// its images; only the modes that match the narrowest or the widest image
/// read them.
pub fn target_width(mode: WidthMode, first_width: u32, widths: &Vec<u32>, custom_width: u32) -> (w:
    u32)
    ensures
        is_target_width(w, mode, first_width, widths@, custom_width),
{
    match mode {
        WidthMode::NoEnforcement | WidthMode::AutoUniform => first_width,
        WidthMode::Custom => custom_width,
        WidthMode::MatchMin => if widths.len() == 0 {
            first_width
        } else {
            narrowest(widths)
        },
        WidthMode::MatchMax => if widths.len() == 0 {
            first_width
        } else {
            widest(widths)
        },
    }
}

/// The height that keeps the proportions of an image of `width` by `height`
/// when it is brought to the width `target`: `height * target / width`,
/// rounded down, and no more than a height can count. An image without
/// columns has nothing to scale.
pub open spec fn scaled_height_spec(height: int, width: int, target: int) -> int {
    if width <= 0 {
        0
    } else if height * target / width > u32::MAX {
        u32::MAX as int
    } else {
        height * target / width
    }
}

/// The height of an image after scaling it to the width `target`.
pub fn scaled_height(height: u32, width: u32, target: u32) -> (h: u32)
    ensures
        h == scaled_height_spec(height as int, width as int, target as int),
{
    if width == 0 {
        return 0;
    }
    assert((height as u64) * (target as u64) <= u64::MAX) by (nonlinear_arith)
        requires
            height <= u32::MAX,
            target <= u32::MAX,
    ;
    let scaled: u64 = (height as u64) * (target as u64) / (width as u64);
    if scaled > u32::MAX as u64 {
        u32::MAX
    } else {
        scaled as u32
    }
}

/// An image of `image_width` columns has to be scaled before it goes onto a
/// canvas of `target` columns: in every mode but the two that leave images
/// as they are, when the widths differ.
pub open spec fn needs_resize_spec(mode: WidthMode, image_width: int, target: int) -> bool {
    mode != WidthMode::NoEnforcement && mode != WidthMode::MatchMax && image_width != target
}

/// Tells whether an image has to be scaled for the canvas.
pub fn needs_resize(mode: WidthMode, image_width: u32, target: u32) -> (needed: bool)
    ensures
        needed == needs_resize_spec(mode, image_width as int, target as int),
{
    match mode {
        WidthMode::NoEnforcement | WidthMode::MatchMax => false,
        _ => image_width != target,
    }
}

/// How far from the left edge of a canvas of `canvas_width` columns an
/// image of `image_width` columns is put: centred in the mode that matches
/// the widest image, at the edge otherwise.
pub open spec fn x_offset_spec(mode: WidthMode, canvas_width: int, image_width: int) -> int {
    if mode == WidthMode::MatchMax && image_width < canvas_width {
        (canvas_width - image_width) / 2
    } else {
        0
    }
}

/// The column at which an image is put onto the canvas.
pub fn x_offset(mode: WidthMode, canvas_width: u32, image_width: u32) -> (x: u32)
    ensures
        x == x_offset_spec(mode, canvas_width as int, image_width as int),
{
    match mode {
        WidthMode::MatchMax => if image_width < canvas_width {
            (canvas_width - image_width) / 2
        } else {
            0
        },
        _ => 0,
    }
}

/// A narrower image on a canvas as wide as the widest one stands in the
/// middle: the strip to its left and the strip to its right are equally
/// wide, or the right one is wider by one column.
pub proof fn lemma_centred(canvas_width: int, image_width: int)
    requires
        0 <= image_width <= canvas_width,
    ensures
        ({
            let left = x_offset_spec(WidthMode::MatchMax, canvas_width, image_width);
            let right = canvas_width - image_width - left;
            0 <= left <= right <= left + 1
        }),
{
}

/// In the mode that matches the widest image, an image that is narrower
/// than the canvas stands in the middle of the rows it is given. Below the
/// seam the strips to the left and to the right of the image have the fill
/// colour; they are equally wide, or the right one is wider by one column;
/// and between them every pixel of the image is shown as it is.
pub proof fn lemma_match_max_centres(
    canvas: Pixels,
    image: Pixels,
    fill: FillColor,
    px: int,
    py: int,
    c: int,
)
    requires
        canvas.wf(),
        image.width <= canvas.width,
        0 <= px < canvas.width,
        canvas.height <= py < canvas.height + image.height,
        0 <= c < 4,
    ensures
        ({
            let left = (canvas.width - image.width) / 2;
            let right = canvas.width - image.width - left;
            let r = canvas.stacked(
                image,
                x_offset_spec(WidthMode::MatchMax, canvas.width as int, image.width as int),
                fill,
            );
            let blank = if c == 3 {
                255u8
            } else {
                fill.level()
            };
            &&& 0 <= left <= right <= left + 1
            &&& px < left || px >= left + image.width ==> r.channel(px, py, c) == blank
            &&& left <= px < left + image.width ==> r.channel(px, py, c) == image.channel(
                px - left,
                py - canvas.height,
                c,
            )
        }),
{
    lemma_stacked_channel(
        canvas,
        image,
        x_offset_spec(WidthMode::MatchMax, canvas.width as int, image.width as int),
        fill,
        px,
        py,
        c,
    );
}

/// The number of rows or columns from which on a picture is not scaled:
/// 8,388,608. The filter places every row and column of the result at a
/// position in the source, half a row or column apart, in single precision;
/// only below this number does single precision tell all of these positions
/// apart, so that each finds the source pixels around it.
pub const FILTER_LIMIT: u32 = 0x80_0000;

/// An image of `width` by `height` pixels can be scaled into `nwidth` by
/// `nheight`: each of the four numbers is below `FILTER_LIMIT`, and the
/// work stays within what the machine can address. The filter works on a
/// strip that is as wide as the wider of the two pictures and keeps sixteen
/// bytes for each of its pixels.
pub open spec fn resize_fits(width: int, height: int, nwidth: int, nheight: int) -> bool {
    &&& width < FILTER_LIMIT
    &&& height < FILTER_LIMIT
    &&& nwidth < FILTER_LIMIT
    &&& nheight < FILTER_LIMIT
    &&& 16 * (width + nwidth + 1) * (nheight + 1) <= isize::MAX
}

/// Tells whether an image can be scaled.
fn fits(width: u32, height: u32, nwidth: u32, nheight: u32) -> (ok: bool)
    ensures
        ok == resize_fits(width as int, height as int, nwidth as int, nheight as int),
{
    if width >= FILTER_LIMIT || height >= FILTER_LIMIT || nwidth >= FILTER_LIMIT || nheight
        >= FILTER_LIMIT {
        return false;
    }
    let a: u128 = width as u128 + nwidth as u128 + 1;
    let b: u128 = nheight as u128 + 1;
    assert(16 * a * b <= 0x10_0000_0000_0000_0000_0000) by (nonlinear_arith)
        requires
            0 <= a <= 0x2_0000_0000,
            0 <= b <= 0x1_0000_0000,
    ;
    16 * a * b <= isize::MAX as u128
}

/// Scales a picture to exactly `nwidth` by `nheight` pixels, by
/// `image::DynamicImage::resize_exact` with the filter `Lanczos3`. The
/// result has the size asked for. Its pixels have no name here: the filter
/// weighs the pixels by a sine, and the standard library leaves the last
/// digits of a sine to the platform, so two machines may differ in them.
///
/// The filter divides its weights by their sum and fails where the sum is
/// zero. That happens where single precision can no longer tell
/// neighbouring rows or columns apart, which `resize_fits` keeps out.
#[verifier::external_body]
fn resample(data: &Vec<u8>, width: u32, height: u32, nwidth: u32, nheight: u32) -> (r: Vec<u8>)
    requires
        data@.len() == 4 * width * height,
        resize_fits(width as int, height as int, nwidth as int, nheight as int),
    ensures
        r@.len() == 4 * nwidth * nheight,
{
    let src = image::RgbaImage::from_raw(width, height, data.clone()).unwrap();
    let out = image::DynamicImage::ImageRgba8(src).resize_exact(
        nwidth,
        nheight,
        image::imageops::FilterType::Lanczos3,
    ).into_rgba8();
    out.into_raw()
}

/// The height that `image` gets when it is scaled to `target` columns.
pub open spec fn scaled_height_of(image: Pixels, target: int) -> int {
    scaled_height_spec(image.height as int, image.width as int, target)
}

/// `n` is `image` scaled to `target` columns: a picture of exactly that
/// width and of the height that keeps the proportions.
pub open spec fn scaled_to(image: Pixels, n: Pixels, target: int) -> bool {
    &&& n.wf()
    &&& n.width == target
    &&& n.height == scaled_height_of(image, target)
}

/// `image` can be scaled to `target` columns.
pub open spec fn scaling_fits(image: Pixels, target: int) -> bool {
    resize_fits(
        image.width as int,
        image.height as int,
        target,
        scaled_height_of(image, target),
    )
}

/// `image` can be brought to a canvas of `target` columns: no scaling is
/// due, or it can be scaled.
pub open spec fn normalize_fits(image: Pixels, mode: WidthMode, target: int) -> bool {
    needs_resize_spec(mode, image.width as int, target) ==> scaling_fits(image, target)
}

/// `n` is what `image` becomes for a canvas of `target` columns: the image
/// itself where no scaling is due, and else the image scaled to that width.
pub open spec fn normal_of(image: Pixels, n: Pixels, mode: WidthMode, target: int) -> bool {
    if needs_resize_spec(mode, image.width as int, target) {
        scaled_to(image, n, target)
    } else {
        n == image
    }
}

/// Scales an image to `target` columns and to the height that keeps its
/// proportions, `height * target / width` rounded down. An image is too
/// large for that if it, or what it would become, has `FILTER_LIMIT` rows
/// or columns or more, or if the work would need more memory than the
/// machine can address.
pub fn scale_to_width(img: &Canvas, target: u32) -> (r: Result<Canvas, StitchError>)
    ensures
        r is Ok <==> scaling_fits(img@, target as int),
        r is Ok ==> scaled_to(img@, r->Ok_0@, target as int),
        r is Err ==> r->Err_0 == StitchError::ImageTooLarge,
{
    let width = img.width();
    let height = img.height();
    let nheight = scaled_height(height, width, target);
    if !fits(width, height, target, nheight) {
        return Err(StitchError::ImageTooLarge);
    }
    let data = resample(img.as_raw(), width, height, target, nheight);
    match Canvas::from_raw(target, nheight, data) {
        Some(scaled) => {
            assert(data@.take(4 * target * nheight) =~= data@);
            let _ = scaled.width();
            Ok(scaled)
        },
        None => Err(StitchError::ImageTooLarge),
    }
}

/// Brings an image to the width of the canvas. Where no scaling is due the
/// image comes back as it is. Otherwise it is scaled to exactly the canvas
/// width and to the height that keeps its proportions, unless it is too
/// large to be scaled.
pub fn normalize(img: Canvas, mode: WidthMode, target: u32) -> (r: Result<Canvas, StitchError>)
    ensures
        r is Ok <==> normalize_fits(img@, mode, target as int),
        r is Ok ==> normal_of(img@, r->Ok_0@, mode, target as int),
        r is Err ==> r->Err_0 == StitchError::ImageTooLarge,
{
    if !needs_resize(mode, img.width(), target) {
        return Ok(img);
    }
    scale_to_width(&img, target)
}

} // verus!
