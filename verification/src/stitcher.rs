//! The canvas of one folder: images go on at the bottom, pages come off at
//! the top.

use vstd::prelude::*;
use crate::canvas::{
    lemma_pasted_channel, lemma_offset_in_bounds, lemma_stacked_bytes, lemma_stacked_wf,
    lemma_strip_of_full_width, Canvas, Pixels,
};
use crate::models::{
    ConfigError, DetectorType, RunError, StitchError, StitchSettings, WidthMode,
};
use crate::seam::{cut_height_for, find_cut_line, lemma_cut_height_bounds};
use crate::width::{
    is_target_width, needs_resize, needs_resize_spec, normal_of, normalize_fits, scale_to_width,
    x_offset, x_offset_spec,
};

verus! {

/// What a step leaves: the canvas that stays and the pages that left it, in
/// the order in which they left.
pub struct Outcome {
    pub canvas: Pixels,
    pub pages: Seq<Pixels>,
}

/// The pictures that some canvases hold.
pub open spec fn views(pages: Seq<Canvas>) -> Seq<Pixels> {
    pages.map_values(|c: Canvas| c@)
}

/// The heights of some pictures, added up.
pub open spec fn total_height(pages: Seq<Pixels>) -> int
    decreases pages.len(),
{
    if pages.len() == 0 {
        0
    } else {
        total_height(pages.drop_last()) + pages.last().height
    }
}

/// Cutting pages off a canvas for as long as it has at least the split
/// height: each page is what the seam detector cuts off the top, and the
/// rows below it are the next canvas. (A cut of no rows, or of more rows
/// than there are, would end the cutting; a valid configuration never gives
/// one.)
pub open spec fn flushed(canvas: Pixels, s: &StitchSettings) -> Outcome
    decreases canvas.height,
{
    let cut = cut_height_for(canvas, 0, s.split_height as int, s);
    if canvas.height < s.split_height || cut <= 0 || cut > canvas.height {
        Outcome { canvas, pages: Seq::empty() }
    } else {
        let rest = flushed(canvas.rows(cut, canvas.height as int), s);
        Outcome { canvas: rest.canvas, pages: seq![canvas.rows(0, cut)] + rest.pages }
    }
}

/// An image of another width restarts the canvas: only where every image
/// keeps its width.
pub open spec fn restarts(canvas: Pixels, image: Pixels, s: &StitchSettings) -> bool {
    s.width_mode() == WidthMode::NoEnforcement && image.width != canvas.width
}

/// The canvas that an image is put on: a fresh one of the width of the
/// image where the canvas restarts, else the canvas as it is.
pub open spec fn base_for(canvas: Pixels, image: Pixels, s: &StitchSettings) -> Pixels {
    if restarts(canvas, image, s) {
        Pixels::filled(image.width, 0, s.fill())
    } else {
        canvas
    }
}

/// Canvas and image together have no more rows than a height can count.
pub open spec fn push_fits(canvas: Pixels, image: Pixels, s: &StitchSettings) -> bool {
    base_for(canvas, image, s).height + image.height <= u32::MAX
}

/// Taking one image, already of its final width, onto the canvas. Where the
/// canvas restarts, what it holds leaves first as a page of its own. Then
/// the image is put below the canvas, centred where the mode asks for it,
/// and pages are cut off.
pub open spec fn pushed(canvas: Pixels, image: Pixels, s: &StitchSettings) -> Outcome {
    let early = if restarts(canvas, image, s) && canvas.height > 0 {
        seq![canvas]
    } else {
        Seq::empty()
    };
    let base = base_for(canvas, image, s);
    let x = x_offset_spec(s.width_mode(), base.width as int, image.width as int);
    let out = flushed(base.stacked(image, x, s.fill()), s);
    Outcome { canvas: out.canvas, pages: early + out.pages }
}

/// What is left when no image follows: a page, unless the canvas is empty.
pub open spec fn finished(canvas: Pixels) -> Seq<Pixels> {
    if canvas.height > 0 {
        seq![canvas]
    } else {
        Seq::empty()
    }
}

/// The state after a run of images, each of its final width, has been
/// taken onto `canvas` one after the other: the canvas that stays and the
/// pages that left.
pub open spec fn after(canvas: Pixels, images: Seq<Pixels>, s: &StitchSettings) -> Outcome
    decreases images.len(),
{
    if images.len() == 0 {
        Outcome { canvas, pages: Seq::empty() }
    } else {
        let prev = after(canvas, images.drop_last(), s);
        let out = pushed(prev.canvas, images.last(), s);
        Outcome { canvas: out.canvas, pages: prev.pages + out.pages }
    }
}

/// Every image of the run finds room on the canvas it meets.
pub open spec fn all_fit(canvas: Pixels, images: Seq<Pixels>, s: &StitchSettings) -> bool
    decreases images.len(),
{
    images.len() == 0 || (all_fit(canvas, images.drop_last(), s) && push_fits(
        after(canvas, images.drop_last(), s).canvas,
        images.last(),
        s,
    ))
}

/// The canvas that a folder starts with: empty and `target_width` wide.
pub open spec fn fresh(target_width: u32, s: &StitchSettings) -> Pixels {
    Pixels::filled(target_width as nat, 0, s.fill())
}

/// All the pages of a folder whose images, each of its final width, are
/// `images`: those that leave the canvas while the images are taken on, and
/// what is left at the end.
pub open spec fn run(target_width: u32, images: Seq<Pixels>, s: &StitchSettings) -> Seq<Pixels> {
    let end = after(fresh(target_width, s), images, s);
    end.pages + finished(end.canvas)
}

/// The heights of two runs of pictures add up.
pub proof fn lemma_total_height_concat(a: Seq<Pixels>, b: Seq<Pixels>)
    ensures
        total_height(a + b) == total_height(a) + total_height(b),
    decreases b.len(),
{
    if b.len() == 0 {
        assert(a + b =~= a);
    } else {
        assert((a + b).drop_last() =~= a + b.drop_last());
        assert((a + b).last() == b.last());
        lemma_total_height_concat(a, b.drop_last());
    }
}

/// The height of a single picture, as a total.
pub proof fn lemma_total_height_one(p: Pixels)
    ensures
        total_height(seq![p]) == p.height,
{
    assert(seq![p].drop_last() =~= Seq::<Pixels>::empty());
    assert(total_height(seq![p].drop_last()) == 0);
}

/// Cutting pages off loses no row and changes no width: the pages and what
/// stays are together as tall as the canvas was. What stays is lower than
/// the split height. Every page has at least one row and at most one and a
/// half times the split height, and exactly the split height under a direct
/// split.
pub proof fn lemma_flushed(canvas: Pixels, s: &StitchSettings)
    requires
        s.valid(),
    ensures
        ({
            let out = flushed(canvas, s);
            &&& total_height(out.pages) + out.canvas.height == canvas.height
            &&& out.canvas.height < s.split_height
            &&& out.canvas.width == canvas.width
            &&& forall|i: int|
                0 <= i < out.pages.len() ==> {
                    let p = #[trigger] out.pages[i];
                    &&& p.width == canvas.width
                    &&& 0 < p.height <= s.split_height + s.split_height / 2
                    &&& s.detector() == DetectorType::DirectSplit ==> p.height == s.split_height
                }
        }),
    decreases canvas.height,
{
    let cut = cut_height_for(canvas, 0, s.split_height as int, s);
    lemma_cut_height_bounds(
        canvas,
        0,
        s.split_height as int,
        s.detector(),
        s.sensitivity,
        s.scan_step as int,
        s.ignorable_margin as int,
    );
    if canvas.height < s.split_height || cut <= 0 || cut > canvas.height {
    } else {
        let page = canvas.rows(0, cut);
        let below = canvas.rows(cut, canvas.height as int);
        let rest = flushed(below, s);
        lemma_flushed(below, s);
        lemma_total_height_one(page);
        lemma_total_height_concat(seq![page], rest.pages);
        let out = flushed(canvas, s);
        assert(out.pages == seq![page] + rest.pages);
        assert forall|i: int| 0 <= i < out.pages.len() implies {
            let p = #[trigger] out.pages[i];
            &&& p.width == canvas.width
            &&& 0 < p.height <= s.split_height + s.split_height / 2
            &&& s.detector() == DetectorType::DirectSplit ==> p.height == s.split_height
        } by {
            if i > 0 {
                assert(out.pages[i] == rest.pages[i - 1]);
            }
        }
    }
}

/// Taking an image onto the canvas loses no row: the pages and what stays
/// are together as tall as the canvas and the image were. What stays is
/// lower than the split height. Where the canvas does not restart, what
/// stays and every page are as wide as the canvas was, and under a direct
/// split every page has exactly the split height.
pub proof fn lemma_pushed(canvas: Pixels, image: Pixels, s: &StitchSettings)
    requires
        s.valid(),
    ensures
        ({
            let out = pushed(canvas, image, s);
            &&& total_height(out.pages) + out.canvas.height == canvas.height + image.height
            &&& out.canvas.height < s.split_height
            &&& out.canvas.width == base_for(canvas, image, s).width
            &&& !restarts(canvas, image, s) ==> forall|i: int|
                0 <= i < out.pages.len() ==> {
                    let p = #[trigger] out.pages[i];
                    &&& p.width == canvas.width
                    &&& s.detector() == DetectorType::DirectSplit ==> p.height == s.split_height
                }
        }),
{
    let early = if restarts(canvas, image, s) && canvas.height > 0 {
        seq![canvas]
    } else {
        Seq::empty()
    };
    let base = base_for(canvas, image, s);
    let x = x_offset_spec(s.width_mode(), base.width as int, image.width as int);
    let grown = base.stacked(image, x, s.fill());
    let out = flushed(grown, s);
    lemma_flushed(grown, s);
    lemma_total_height_concat(early, out.pages);
    if restarts(canvas, image, s) && canvas.height > 0 {
        lemma_total_height_one(canvas);
    } else {
        assert(early + out.pages =~= out.pages);
    }
}

/// No image restarts a canvas of this width: the mode brings every image to
/// one width, or every image has the width of the canvas.
pub open spec fn one_width(width: nat, images: Seq<Pixels>, s: &StitchSettings) -> bool {
    s.width_mode() != WidthMode::NoEnforcement || forall|i: int|
        0 <= i < images.len() ==> (#[trigger] images[i]).width == width
}

/// Taking a run of images onto the canvas loses no row: the pages and what
/// stays are together as tall as the canvas and the images were. Once an
/// image has been taken on, what stays is lower than the split height.
/// Where no image restarts the canvas, what stays and every page are as
/// wide as the canvas was, and under a direct split every page has exactly
/// the split height.
pub proof fn lemma_after(canvas: Pixels, images: Seq<Pixels>, s: &StitchSettings)
    requires
        s.valid(),
    ensures
        ({
            let end = after(canvas, images, s);
            &&& total_height(end.pages) + end.canvas.height == canvas.height + total_height(images)
            &&& images.len() > 0 ==> end.canvas.height < s.split_height
            &&& images.len() == 0 ==> end.canvas == canvas
            &&& one_width(canvas.width, images, s) ==> {
                &&& end.canvas.width == canvas.width
                &&& forall|i: int|
                    0 <= i < end.pages.len() ==> {
                        let p = #[trigger] end.pages[i];
                        &&& p.width == canvas.width
                        &&& s.detector() == DetectorType::DirectSplit ==> p.height
                            == s.split_height
                    }
            }
        }),
    decreases images.len(),
{
    if images.len() > 0 {
        let before = images.drop_last();
        let prev = after(canvas, before, s);
        let out = pushed(prev.canvas, images.last(), s);
        let end = after(canvas, images, s);
        lemma_after(canvas, before, s);
        lemma_pushed(prev.canvas, images.last(), s);
        lemma_total_height_concat(prev.pages, out.pages);
        if one_width(canvas.width, images, s) {
            assert(one_width(canvas.width, before, s)) by {
                if s.width_mode() == WidthMode::NoEnforcement {
                    assert forall|i: int| 0 <= i < before.len() implies (#[trigger] before[i]).width
                        == canvas.width by {
                        assert(before[i] == images[i]);
                    }
                }
            }
            assert(images.last() == images[images.len() - 1]);
            assert(!restarts(prev.canvas, images.last(), s));
            assert forall|i: int| 0 <= i < end.pages.len() implies {
                let p = #[trigger] end.pages[i];
                &&& p.width == canvas.width
                &&& s.detector() == DetectorType::DirectSplit ==> p.height == s.split_height
            } by {
                if i < prev.pages.len() {
                    assert(end.pages[i] == prev.pages[i]);
                } else {
                    assert(end.pages[i] == out.pages[i - prev.pages.len()]);
                }
            }
        }
    }
}

/// The pages of a folder are together exactly as tall as its images, each
/// taken at its final width.
pub proof fn lemma_pages_as_tall_as_images(
    target_width: u32,
    images: Seq<Pixels>,
    s: &StitchSettings,
)
    requires
        s.valid(),
    ensures
        total_height(run(target_width, images, s)) == total_height(images),
{
    let end = after(fresh(target_width, s), images, s);
    lemma_after(fresh(target_width, s), images, s);
    lemma_total_height_concat(end.pages, finished(end.canvas));
    if end.canvas.height > 0 {
        lemma_total_height_one(end.canvas);
    }
}

/// Some pictures are together at least as tall as each of them.
proof fn lemma_total_height_at_least(pages: Seq<Pixels>, i: int)
    requires
        0 <= i < pages.len(),
    ensures
        total_height(pages) >= pages[i].height,
        total_height(pages) >= 0,
    decreases pages.len(),
{
    if pages.len() > 1 {
        if i < pages.len() - 1 {
            lemma_total_height_at_least(pages.drop_last(), i);
        } else {
            lemma_total_height_at_least(pages.drop_last(), 0);
        }
    } else {
        assert(total_height(pages.drop_last()) == 0);
    }
}

/// A folder with an image that has rows, taken at its final width, gives
/// at least one page.
pub proof fn lemma_pages_come_out(
    target_width: u32,
    images: Seq<Pixels>,
    s: &StitchSettings,
    i: int,
)
    requires
        s.valid(),
        0 <= i < images.len(),
        images[i].height > 0,
    ensures
        run(target_width, images, s).len() > 0,
{
    lemma_pages_as_tall_as_images(target_width, images, s);
    lemma_total_height_at_least(images, i);
}

/// In every mode that brings the images to one width, each page of a folder
/// is exactly as wide as the canvas was made: in custom mode, as wide as
/// the configured width, whatever the widths of the images.
pub proof fn lemma_pages_have_target_width(
    target_width: u32,
    images: Seq<Pixels>,
    s: &StitchSettings,
)
    requires
        s.valid(),
        s.width_mode() != WidthMode::NoEnforcement,
    ensures
        forall|i: int|
            0 <= i < run(target_width, images, s).len() ==> (#[trigger] run(
                target_width,
                images,
                s,
            )[i]).width == target_width,
{
    let end = after(fresh(target_width, s), images, s);
    lemma_after(fresh(target_width, s), images, s);
    let pages = run(target_width, images, s);
    assert forall|i: int| 0 <= i < pages.len() implies (#[trigger] pages[i]).width
        == target_width by {
        if i < end.pages.len() {
            assert(pages[i] == end.pages[i]);
        } else {
            assert(pages[i] == finished(end.canvas)[i - end.pages.len()]);
        }
    }
}

/// In custom mode every page of a folder is exactly as wide as the
/// configured width, whatever the widths of the images.
pub proof fn lemma_custom_pages_have_custom_width(
    target_width: u32,
    first_width: u32,
    widths: Seq<u32>,
    images: Seq<Pixels>,
    s: &StitchSettings,
)
    requires
        s.valid(),
        s.width_mode() == WidthMode::Custom,
        is_target_width(target_width, s.width_mode(), first_width, widths, s.custom_width),
    ensures
        forall|i: int|
            0 <= i < run(target_width, images, s).len() ==> (#[trigger] run(
                target_width,
                images,
                s,
            )[i]).width == s.custom_width,
{
    lemma_pages_have_target_width(target_width, images, s);
}

/// Under a direct split, in a folder whose canvas never restarts, every
/// page but the last has exactly the split height, and the last one has no
/// more.
pub proof fn lemma_direct_split_page_heights(
    target_width: u32,
    images: Seq<Pixels>,
    s: &StitchSettings,
)
    requires
        s.valid(),
        s.detector() == DetectorType::DirectSplit,
        one_width(target_width as nat, images, s),
    ensures
        ({
            let pages = run(target_width, images, s);
            forall|i: int|
                0 <= i < pages.len() ==> {
                    &&& (#[trigger] pages[i]).height <= s.split_height
                    &&& i + 1 < pages.len() ==> pages[i].height == s.split_height
                }
        }),
{
    let end = after(fresh(target_width, s), images, s);
    lemma_after(fresh(target_width, s), images, s);
    let pages = run(target_width, images, s);
    assert forall|i: int| 0 <= i < pages.len() implies {
        &&& (#[trigger] pages[i]).height <= s.split_height
        &&& i + 1 < pages.len() ==> pages[i].height == s.split_height
    } by {
        if i < end.pages.len() {
            assert(pages[i] == end.pages[i]);
        } else {
            assert(pages[i] == finished(end.canvas)[i - end.pages.len()]);
        }
    }
}

/// The bytes of some pictures, one picture after the other.
pub open spec fn joined(pages: Seq<Pixels>) -> Seq<u8>
    decreases pages.len(),
{
    if pages.len() == 0 {
        Seq::empty()
    } else {
        joined(pages.drop_last()) + pages.last().bytes
    }
}

/// The rows that an image, already of its final width, fills in a folder
/// whose canvas was made `canvas_width` wide: a strip as wide as the canvas
/// it is put on (which is as wide as the image where every image keeps its
/// width), blank but for the image, which stands at the left edge or, in
/// the mode that matches the widest image, in the middle.
pub open spec fn strip_for(canvas_width: nat, image: Pixels, s: &StitchSettings) -> Pixels {
    let width = if s.width_mode() == WidthMode::NoEnforcement {
        image.width
    } else {
        canvas_width
    };
    Pixels::strip(
        width,
        image,
        x_offset_spec(s.width_mode(), width as int, image.width as int),
        s.fill(),
    )
}

/// The bytes of the strips of a run of images, one strip after the other.
pub open spec fn strips(canvas_width: nat, images: Seq<Pixels>, s: &StitchSettings) -> Seq<u8>
    decreases images.len(),
{
    if images.len() == 0 {
        Seq::empty()
    } else {
        strips(canvas_width, images.drop_last(), s) + strip_for(
            canvas_width,
            images.last(),
            s,
        ).bytes
    }
}

/// The bytes of two runs of pictures follow each other.
pub proof fn lemma_joined_concat(a: Seq<Pixels>, b: Seq<Pixels>)
    ensures
        joined(a + b) == joined(a) + joined(b),
    decreases b.len(),
{
    if b.len() == 0 {
        assert(a + b =~= a);
        assert(joined(a) + Seq::<u8>::empty() =~= joined(a));
    } else {
        assert((a + b).drop_last() =~= a + b.drop_last());
        assert((a + b).last() == b.last());
        lemma_joined_concat(a, b.drop_last());
        assert((joined(a) + joined(b.drop_last())) + b.last().bytes =~= joined(a) + (joined(
            b.drop_last(),
        ) + b.last().bytes));
    }
}

/// The bytes of a single picture, as a run.
pub proof fn lemma_joined_one(p: Pixels)
    ensures
        joined(seq![p]) == p.bytes,
{
    assert(seq![p].drop_last() =~= Seq::<Pixels>::empty());
    assert(joined(seq![p].drop_last()) =~= Seq::<u8>::empty());
    assert(Seq::<u8>::empty() + p.bytes =~= p.bytes);
}

/// Cutting pages off loses, repeats and moves no row: the bytes of the
/// pages, one page after the other, and then those of what stays are the
/// bytes of the canvas.
pub proof fn lemma_flushed_rows(canvas: Pixels, s: &StitchSettings)
    requires
        s.valid(),
        canvas.wf(),
    ensures
        joined(flushed(canvas, s).pages) + flushed(canvas, s).canvas.bytes == canvas.bytes,
        flushed(canvas, s).canvas.wf(),
    decreases canvas.height,
{
    let cut = cut_height_for(canvas, 0, s.split_height as int, s);
    lemma_cut_height_bounds(
        canvas,
        0,
        s.split_height as int,
        s.detector(),
        s.sensitivity,
        s.scan_step as int,
        s.ignorable_margin as int,
    );
    if canvas.height < s.split_height || cut <= 0 || cut > canvas.height {
        assert(joined(Seq::<Pixels>::empty()) + canvas.bytes =~= canvas.bytes);
    } else {
        let page = canvas.rows(0, cut);
        let below = canvas.rows(cut, canvas.height as int);
        let rest = flushed(below, s);
        let w = canvas.width as int;
        let h = canvas.height as int;
        assert(0 <= 4 * w * cut <= 4 * w * h && 4 * w * 0 == 0 && 4 * w * (h - cut) == 4 * w * h
            - 4 * w * cut) by (nonlinear_arith)
            requires
                0 < cut <= h,
                0 <= w,
        ;
        assert(below.wf());
        assert(page.bytes + below.bytes =~= canvas.bytes);
        lemma_flushed_rows(below, s);
        lemma_joined_one(page);
        lemma_joined_concat(seq![page], rest.pages);
        assert((page.bytes + joined(rest.pages)) + rest.canvas.bytes =~= page.bytes + (joined(
            rest.pages,
        ) + rest.canvas.bytes));
    }
}

/// Taking an image onto the canvas loses, repeats and moves no row: the
/// bytes of the pages and then those of what stays are the bytes of the
/// canvas and then those of the strip that the image fills.
pub proof fn lemma_pushed_rows(canvas: Pixels, image: Pixels, s: &StitchSettings)
    requires
        s.valid(),
        canvas.wf(),
    ensures
        joined(pushed(canvas, image, s).pages) + pushed(canvas, image, s).canvas.bytes
            == canvas.bytes + strip_for(canvas.width, image, s).bytes,
        pushed(canvas, image, s).canvas.wf(),
{
    let early = if restarts(canvas, image, s) && canvas.height > 0 {
        seq![canvas]
    } else {
        Seq::empty()
    };
    let base = base_for(canvas, image, s);
    let x = x_offset_spec(s.width_mode(), base.width as int, image.width as int);
    let grown = base.stacked(image, x, s.fill());
    let out = flushed(grown, s);
    let strip = strip_for(canvas.width, image, s);
    assert(base.wf()) by {
        assert(4 * image.width * 0 == 0) by (nonlinear_arith);
    }
    lemma_stacked_wf(base, image, x, s.fill());
    lemma_stacked_bytes(base, image, x, s.fill());
    lemma_flushed_rows(grown, s);
    lemma_joined_concat(early, out.pages);
    assert(strip == Pixels::strip(base.width, image, x, s.fill()));
    if restarts(canvas, image, s) {
        assert(base.bytes =~= Seq::<u8>::empty());
        if canvas.height > 0 {
            lemma_joined_one(canvas);
        } else {
            assert(4 * canvas.width * 0 == 0) by (nonlinear_arith);
            assert(canvas.bytes =~= Seq::<u8>::empty());
            assert(joined(early) =~= Seq::<u8>::empty());
        }
        assert((joined(early) + joined(out.pages)) + out.canvas.bytes =~= canvas.bytes + (
        Seq::<u8>::empty() + strip.bytes));
        assert(Seq::<u8>::empty() + strip.bytes =~= strip.bytes);
    } else {
        assert(joined(early) =~= Seq::<u8>::empty());
        assert((joined(early) + joined(out.pages)) + out.canvas.bytes =~= joined(out.pages)
            + out.canvas.bytes);
    }
}

/// Taking a run of images onto the canvas loses, repeats and moves no row:
/// the bytes of the pages and then those of what stays are the bytes of the
/// canvas and then those of the strips that the images fill.
pub proof fn lemma_after_rows(canvas: Pixels, images: Seq<Pixels>, s: &StitchSettings)
    requires
        s.valid(),
        canvas.wf(),
    ensures
        joined(after(canvas, images, s).pages) + after(canvas, images, s).canvas.bytes
            == canvas.bytes + strips(canvas.width, images, s),
        after(canvas, images, s).canvas.wf(),
    decreases images.len(),
{
    if images.len() == 0 {
        assert(joined(Seq::<Pixels>::empty()) + canvas.bytes =~= canvas.bytes + Seq::<
            u8,
        >::empty());
    } else {
        let before = images.drop_last();
        let prev = after(canvas, before, s);
        let out = pushed(prev.canvas, images.last(), s);
        lemma_after_rows(canvas, before, s);
        lemma_after(canvas, before, s);
        lemma_pushed_rows(prev.canvas, images.last(), s);
        lemma_joined_concat(prev.pages, out.pages);
        assert(strip_for(prev.canvas.width, images.last(), s) == strip_for(
            canvas.width,
            images.last(),
            s,
        ));
        let strip = strip_for(canvas.width, images.last(), s);
        assert((joined(prev.pages) + joined(out.pages)) + out.canvas.bytes =~= joined(prev.pages)
            + (joined(out.pages) + out.canvas.bytes));
        assert(joined(prev.pages) + (prev.canvas.bytes + strip.bytes) =~= (joined(prev.pages)
            + prev.canvas.bytes) + strip.bytes);
        assert((canvas.bytes + strips(canvas.width, before, s)) + strip.bytes =~= canvas.bytes
            + (strips(canvas.width, before, s) + strip.bytes));
    }
}

/// The pages of a folder, one after the other, are the strips that its
/// images fill, one after the other: no row is lost, repeated or moved.
pub proof fn lemma_pages_are_the_strips(
    target_width: u32,
    images: Seq<Pixels>,
    s: &StitchSettings,
)
    requires
        s.valid(),
    ensures
        joined(run(target_width, images, s)) == strips(target_width as nat, images, s),
{
    let start = fresh(target_width, s);
    let end = after(start, images, s);
    assert(start.wf() && start.bytes =~= Seq::<u8>::empty()) by {
        assert(4 * target_width * 0 == 0) by (nonlinear_arith);
    }
    lemma_after_rows(start, images, s);
    lemma_joined_concat(end.pages, finished(end.canvas));
    if end.canvas.height > 0 {
        lemma_joined_one(end.canvas);
    } else {
        assert(4 * end.canvas.width * 0 == 0) by (nonlinear_arith);
        assert(end.canvas.bytes =~= Seq::<u8>::empty());
        assert(joined(finished(end.canvas)) =~= Seq::<u8>::empty());
    }
    assert(Seq::<u8>::empty() + strips(target_width as nat, images, s) =~= strips(
        target_width as nat,
        images,
        s,
    ));
}

/// Every image is a picture of four bytes per pixel and exactly as wide as
/// the canvas it is put on.
pub open spec fn full_width(canvas_width: nat, images: Seq<Pixels>, s: &StitchSettings) -> bool {
    forall|i: int|
        0 <= i < images.len() ==> (#[trigger] images[i]).wf() && (s.width_mode()
            == WidthMode::NoEnforcement || images[i].width == canvas_width)
}

/// Where every image is as wide as the canvas it is put on, the pages of a
/// folder, one after the other, are the images, one after the other, pixel
/// for pixel.
pub proof fn lemma_pages_are_the_images(
    target_width: u32,
    images: Seq<Pixels>,
    s: &StitchSettings,
)
    requires
        s.valid(),
        full_width(target_width as nat, images, s),
    ensures
        joined(run(target_width, images, s)) == joined(images),
{
    lemma_pages_are_the_strips(target_width, images, s);
    lemma_strips_of_full_width(target_width as nat, images, s);
}

/// Where every image is as wide as the canvas it is put on, the strips are
/// the images.
proof fn lemma_strips_of_full_width(canvas_width: nat, images: Seq<Pixels>, s: &StitchSettings)
    requires
        full_width(canvas_width, images, s),
    ensures
        strips(canvas_width, images, s) == joined(images),
    decreases images.len(),
{
    if images.len() > 0 {
        let before = images.drop_last();
        assert(full_width(canvas_width, before, s)) by {
            assert forall|i: int| 0 <= i < before.len() implies (#[trigger] before[i]).wf() && (
            s.width_mode() == WidthMode::NoEnforcement || before[i].width == canvas_width) by {
                assert(before[i] == images[i]);
            }
        }
        lemma_strips_of_full_width(canvas_width, before, s);
        assert(images.last() == images[images.len() - 1]);
        lemma_strip_of_full_width(images.last(), s.fill());
    }
}

/// What the strip of an image shows in the mode that matches the widest
/// image: the image stands in the middle, every pixel of it as it is; the
/// strips to its left and to its right have the fill colour, and they are
/// equally wide or the right one is wider by one column.
pub proof fn lemma_match_max_strip(
    canvas_width: nat,
    image: Pixels,
    s: &StitchSettings,
    px: int,
    py: int,
    c: int,
)
    requires
        s.width_mode() == WidthMode::MatchMax,
        image.width <= canvas_width,
        0 <= px < canvas_width,
        0 <= py < image.height,
        0 <= c < 4,
    ensures
        ({
            let left = (canvas_width - image.width) / 2;
            let right = canvas_width - image.width - left;
            let strip = strip_for(canvas_width, image, s);
            let blank = if c == 3 {
                255u8
            } else {
                s.fill().level()
            };
            &&& strip.width == canvas_width && strip.height == image.height
            &&& 0 <= left <= right <= left + 1
            &&& px < left || px >= left + image.width ==> strip.channel(px, py, c) == blank
            &&& left <= px < left + image.width ==> strip.channel(px, py, c) == image.channel(
                px - left,
                py,
                c,
            )
        }),
{
    let blank = Pixels::filled(canvas_width, image.height, s.fill());
    let x = x_offset_spec(s.width_mode(), canvas_width as int, image.width as int);
    lemma_offset_in_bounds(canvas_width, image.height, px, py, c);
    lemma_pasted_channel(blank, image, x, 0, px, py, c);
}

/// `r` and `left` are what taking `image` onto `canvas` gives: the pages
/// that it completes and the canvas that stays, or, where canvas and image
/// are too tall together, the error that says so and the canvas unchanged.
pub open spec fn is_push_result(
    canvas: Pixels,
    image: Pixels,
    s: &StitchSettings,
    r: Result<Vec<Canvas>, StitchError>,
    left: Pixels,
) -> bool {
    match r {
        Ok(pages) => {
            &&& push_fits(canvas, image, s)
            &&& views(pages@) == pushed(canvas, image, s).pages
            &&& left == pushed(canvas, image, s).canvas
        },
        Err(e) => {
            &&& !push_fits(canvas, image, s)
            &&& e == StitchError::CanvasTooTall
            &&& left == canvas
        },
    }
}

/// `e` is the reason for which `image` is not taken onto `canvas`: it is
/// too large to be scaled, or it can be brought to the canvas width and is
/// then too tall for the canvas.
pub open spec fn is_refusal(
    canvas: Pixels,
    image: Pixels,
    s: &StitchSettings,
    target: int,
    e: StitchError,
) -> bool {
    match e {
        StitchError::ImageTooLarge => !normalize_fits(image, s.width_mode(), target),
        StitchError::CanvasTooTall => normalize_fits(image, s.width_mode(), target)
            && exists|n: Pixels| #[trigger]
                normal_of(image, n, s.width_mode(), target) && !push_fits(canvas, n, s),
    }
}

/// `normals` are what `images` become for a canvas of `target` columns,
/// one for one.
pub open spec fn normals_of(
    images: Seq<Pixels>,
    normals: Seq<Pixels>,
    mode: WidthMode,
    target: int,
) -> bool {
    &&& normals.len() == images.len()
    &&& forall|i: int|
        0 <= i < images.len() ==> normal_of(images[i], #[trigger] normals[i], mode, target)
}

/// Where every image of a run finds room, so does every image of a part of
/// the run that starts at its beginning.
pub proof fn lemma_all_fit_prefix(canvas: Pixels, images: Seq<Pixels>, k: int, s: &StitchSettings)
    requires
        0 <= k <= images.len(),
        all_fit(canvas, images, s),
    ensures
        all_fit(canvas, images.take(k), s),
    decreases images.len(),
{
    if k == images.len() {
        assert(images.take(k) =~= images);
    } else {
        lemma_all_fit_prefix(canvas, images.drop_last(), k, s);
        assert(images.drop_last().take(k) =~= images.take(k));
    }
}

/// The canvas of one folder with the configuration it is cut by.
pub struct Stitcher {
    settings: StitchSettings,
    canvas: Canvas,
}

impl Stitcher {
    #[verifier::type_invariant]
    spec fn well_formed(&self) -> bool {
        self.settings.valid() && self.canvas@.height < self.settings.split_height
    }

    /// What the canvas holds.
    pub closed spec fn canvas(&self) -> Pixels {
        self.canvas@
    }

    /// The configuration.
    pub closed spec fn settings(&self) -> StitchSettings {
        self.settings
    }

    /// Starts a folder with an empty canvas of the given width. A
    /// configuration that is not valid gives its first defect.
    pub fn new(settings: StitchSettings, target_width: u32) -> (r: Result<Stitcher, ConfigError>)
        ensures
            r is Ok <==> settings.valid(),
            r is Err ==> settings.defect() == Some(r->Err_0),
            r is Ok ==> r->Ok_0.settings() == settings && r->Ok_0.canvas() == Pixels::filled(
                target_width as nat,
                0,
                settings.fill(),
            ),
    {
        match settings.validate() {
            Err(e) => Err(e),
            Ok(()) => {
                let canvas = Canvas::filled(target_width, 0, settings.fill());
                Ok(Stitcher { settings, canvas })
            },
        }
    }

    /// The width of the canvas.
    pub fn width(&self) -> (w: u32)
        ensures
            w == self.canvas().width,
    {
        self.canvas.width()
    }

    /// The number of rows that wait on the canvas; it is always lower than
    /// the split height of a valid configuration.
    pub fn pending_height(&self) -> (h: u32)
        ensures
            h == self.canvas().height,
            h < self.settings().split_height,
            self.settings().valid(),
    {
        proof {
            use_type_invariant(self);
        }
        self.canvas.height()
    }

    /// Cuts pages off `canvas` while it has at least the split height.
    fn flush(canvas: Canvas, settings: &StitchSettings) -> (r: (Canvas, Vec<Canvas>))
        requires
            settings.valid(),
        ensures
            r.0@ == flushed(canvas@, settings).canvas,
            views(r.1@) == flushed(canvas@, settings).pages,
            r.0@.height < settings.split_height,
    {
        let ghost whole = canvas@;
        let mut canvas = canvas;
        let mut pages: Vec<Canvas> = Vec::new();
        assert(views(pages@) =~= Seq::<Pixels>::empty());
        while canvas.height() >= settings.split_height
            invariant
                settings.valid(),
                flushed(whole, settings).canvas == flushed(canvas@, settings).canvas,
                flushed(whole, settings).pages == views(pages@) + flushed(canvas@, settings).pages,
            decreases canvas@.height,
        {
            let ghost before = canvas@;
            let ghost done = views(pages@);
            let cut = find_cut_line(&canvas, 0, settings.split_height, settings);
            let (page, rest) = canvas.split_rows(cut);
            pages.push(page);
            canvas = rest;
            proof {
                assert(views(pages@) =~= done.push(before.rows(0, cut as int)));
                let tail = flushed(canvas@, settings).pages;
                assert(flushed(before, settings).pages == seq![before.rows(0, cut as int)] + tail);
                assert(done + (seq![before.rows(0, cut as int)] + tail) =~= done.push(
                    before.rows(0, cut as int),
                ) + tail);
            }
        }
        proof {
            assert(views(pages@) + Seq::<Pixels>::empty() =~= views(pages@));
        }
        (canvas, pages)
    }

    /// Takes one image, already of its final width, onto the canvas and
    /// hands out the pages that this completes, in order.
    ///
    /// Where every image keeps its width and this one is of another width
    /// than the canvas, the canvas restarts at the new width, and what it
    /// held leaves first, as a page of its own. The image is put below the
    /// canvas (centred where the mode matches the widest image), and pages
    /// are cut off until less than the split height is left.
    ///
    /// Canvas and image may together have more rows than a height can
    /// count; then nothing changes and the error says so.
    pub fn push_normalized(&mut self, image: &Canvas) -> (r: Result<Vec<Canvas>, StitchError>)
        ensures
            final(self).settings() == old(self).settings(),
            is_push_result(
                old(self).canvas(),
                image@,
                &old(self).settings(),
                r,
                final(self).canvas(),
            ),
    {
        proof {
            use_type_invariant(&*self);
        }
        let mode = self.settings.width_mode();
        let fill = self.settings.fill();
        let restart = match mode {
            WidthMode::NoEnforcement => image.width() != self.canvas.width(),
            _ => false,
        };
        let image_height = image.height();
        if !restart && image_height > u32::MAX - self.canvas.height() {
            return Err(StitchError::CanvasTooTall);
        }
        let base_width = if restart {
            image.width()
        } else {
            self.canvas.width()
        };
        let mut held = Canvas::filled(base_width, 0, fill);
        core::mem::swap(&mut self.canvas, &mut held);
        let mut pages: Vec<Canvas> = Vec::new();
        let ghost early = if restart && held@.height > 0 {
            seq![held@]
        } else {
            Seq::<Pixels>::empty()
        };
        let base = if restart {
            if held.height() > 0 {
                pages.push(held);
            }
            Canvas::filled(base_width, 0, fill)
        } else {
            held
        };
        assert(views(pages@) =~= early);
        let x = x_offset(mode, base.width(), image.width());
        let grown = base.stack(image, x, fill);
        match grown {
            Some(grown) => {
                let (rest, mut cut_off) = Self::flush(grown, &self.settings);
                let ghost first = views(pages@);
                let ghost second = views(cut_off@);
                pages.append(&mut cut_off);
                assert(views(pages@) =~= first + second);
                self.canvas = rest;
                Ok(pages)
            },
            None => Err(StitchError::CanvasTooTall),
        }
    }

    /// Takes one image onto the canvas and hands out the pages that this
    /// completes, in order. The image is first brought to the width of the
    /// canvas, where the mode asks for it; the rest is `push_normalized`.
    ///
    /// The image may be too large to be scaled, and canvas and image may
    /// together have more rows than a height can count; then nothing changes
    /// and the error says which.
    pub fn push(&mut self, image: &Canvas) -> (r: Result<Vec<Canvas>, StitchError>)
        ensures
            final(self).settings() == old(self).settings(),
            r is Err ==> final(self).canvas() == old(self).canvas(),
            (r is Err && r->Err_0 == StitchError::ImageTooLarge) <==> !normalize_fits(
                image@,
                old(self).settings().width_mode(),
                old(self).canvas().width as int,
            ),
            normalize_fits(
                image@,
                old(self).settings().width_mode(),
                old(self).canvas().width as int,
            ) ==> exists|n: Pixels|
                {
                    &&& #[trigger] normal_of(
                        image@,
                        n,
                        old(self).settings().width_mode(),
                        old(self).canvas().width as int,
                    )
                    &&& is_push_result(
                        old(self).canvas(),
                        n,
                        &old(self).settings(),
                        r,
                        final(self).canvas(),
                    )
                },
    {
        let mode = self.settings.width_mode();
        let target = self.canvas.width();
        if needs_resize(mode, image.width(), target) {
            match scale_to_width(image, target) {
                Err(e) => Err(e),
                Ok(scaled) => {
                    let r = self.push_normalized(&scaled);
                    proof {
                        assert(normal_of(image@, scaled@, mode, target as int));
                    }
                    r
                },
            }
        } else {
            let r = self.push_normalized(image);
            proof {
                assert(normal_of(image@, image@, mode, target as int));
            }
            r
        }
    }

    /// Ends the folder: what is left on the canvas is its last page.
    pub fn finish(self) -> (r: Option<Canvas>)
        ensures
            r is Some <==> self.canvas().height > 0,
            r is Some ==> r->0@ == self.canvas(),
            (match r {
                Some(page) => seq![page@],
                None => Seq::empty(),
            }) == finished(self.canvas()),
    {
        if self.canvas.height() > 0 {
            Some(self.canvas)
        } else {
            None
        }
    }
}

/// Makes the pages of a folder from its images, each already of its final
/// width: an empty canvas of `target_width` columns takes them on one after
/// the other, and what is left at the end is the last page.
///
/// A configuration that is not valid is refused. The run ends at the first
/// image that is too tall for the canvas it meets.
#[verifier::loop_isolation(false)]
pub fn stitch_normalized(settings: StitchSettings, target_width: u32, images: &Vec<Canvas>) -> (r:
    Result<Vec<Canvas>, RunError>)
    ensures
        r is Ok <==> settings.valid() && all_fit(
            fresh(target_width, &settings),
            views(images@),
            &settings,
        ),
        match r {
            Ok(pages) => views(pages@) == run(target_width, views(images@), &settings),
            Err(RunError::Config(e)) => settings.defect() == Some(e),
            Err(RunError::Image(i, e)) => {
                &&& settings.valid()
                &&& e == StitchError::CanvasTooTall
                &&& i < images@.len()
                &&& all_fit(fresh(target_width, &settings), views(images@).take(i as int), &settings)
                &&& !all_fit(
                    fresh(target_width, &settings),
                    views(images@).take(i + 1),
                    &settings,
                )
            },
        },
{
    let ghost s = settings;
    let ghost start = fresh(target_width, &settings);
    let ghost all = views(images@);
    let mut stitcher = match Stitcher::new(settings, target_width) {
        Err(e) => {
            return Err(RunError::Config(e));
        },
        Ok(stitcher) => stitcher,
    };
    let mut pages: Vec<Canvas> = Vec::new();
    let mut i: usize = 0;
    assert(all.take(0) =~= Seq::<Pixels>::empty());
    assert(views(pages@) =~= Seq::<Pixels>::empty());
    while i < images.len()
        invariant
            i <= images@.len(),
            s.valid(),
            all == views(images@),
            stitcher.settings() == s,
            all_fit(start, all.take(i as int), &s),
            after(start, all.take(i as int), &s) == (Outcome {
                canvas: stitcher.canvas(),
                pages: views(pages@),
            }),
        decreases images@.len() - i,
    {
        let ghost done = views(pages@);
        proof {
            assert(all.take(i + 1).drop_last() =~= all.take(i as int));
            assert(all.take(i + 1).last() == images@[i as int]@);
        }
        match stitcher.push_normalized(&images[i]) {
            Ok(mut more) => {
                let ghost added = views(more@);
                pages.append(&mut more);
                assert(views(pages@) =~= done + added);
            },
            Err(e) => {
                proof {
                    if all_fit(start, all, &s) {
                        lemma_all_fit_prefix(start, all, i + 1, &s);
                    }
                }
                return Err(RunError::Image(i, e));
            },
        }
        i = i + 1;
    }
    assert(all.take(i as int) =~= all);
    let ghost done = views(pages@);
    match stitcher.finish() {
        Some(page) => {
            pages.push(page);
            assert(views(pages@) =~= done + seq![page@]);
        },
        None => {
            assert(done + Seq::<Pixels>::empty() =~= done);
        },
    }
    Ok(pages)
}

/// No image of the run has to be scaled for a canvas of `target` columns.
pub open spec fn no_scaling(images: Seq<Pixels>, mode: WidthMode, target: int) -> bool {
    forall|k: int|
        0 <= k < images.len() ==> !needs_resize_spec(
            mode,
            (#[trigger] images[k]).width as int,
            target,
        )
}

/// `pages` are the pages of the folder of `images`: the pages of the run
/// of what the images become for the canvas, each of which found room.
pub open spec fn ran(
    images: Seq<Pixels>,
    target_width: u32,
    s: &StitchSettings,
    pages: Seq<Pixels>,
) -> bool {
    exists|normals: Seq<Pixels>|
        {
            &&& #[trigger] normals_of(images, normals, s.width_mode(), target_width as int)
            &&& all_fit(fresh(target_width, s), normals, s)
            &&& pages == run(target_width, normals, s)
        }
}

/// The run over `images` ends at the image `i` for the reason `e`: the
/// images before it were taken on, and this one is refused by the canvas
/// that they left.
pub open spec fn stopped(
    images: Seq<Pixels>,
    target_width: u32,
    s: &StitchSettings,
    i: int,
    e: StitchError,
) -> bool {
    exists|normals: Seq<Pixels>|
        {
            &&& #[trigger] normals_of(images.take(i), normals, s.width_mode(), target_width as int)
            &&& all_fit(fresh(target_width, s), normals, s)
            &&& is_refusal(
                after(fresh(target_width, s), normals, s).canvas,
                images[i],
                s,
                target_width as int,
                e,
            )
        }
}

/// A run that ends at an image is not one in which no image has to be
/// scaled and every image finds room.
proof fn lemma_stopped(
    all: Seq<Pixels>,
    normals: Seq<Pixels>,
    target_width: u32,
    s: &StitchSettings,
    i: int,
    e: StitchError,
)
    requires
        0 <= i < all.len(),
        normals_of(all.take(i), normals, s.width_mode(), target_width as int),
        all_fit(fresh(target_width, s), normals, s),
        is_refusal(
            after(fresh(target_width, s), normals, s).canvas,
            all[i],
            s,
            target_width as int,
            e,
        ),
    ensures
        stopped(all, target_width, s, i, e),
        !(all_fit(fresh(target_width, s), all, s) && no_scaling(
            all,
            s.width_mode(),
            target_width as int,
        )),
{
    let start = fresh(target_width, s);
    let mode = s.width_mode();
    if all_fit(start, all, s) && no_scaling(all, mode, target_width as int) {
        assert(normals =~= all.take(i)) by {
            assert forall|k: int| 0 <= k < i implies normals[k] == all.take(i)[k] by {
                assert(all.take(i)[k] == all[k]);
                assert(normal_of(all.take(i)[k], normals[k], mode, target_width as int));
            }
        }
        assert(!needs_resize_spec(mode, all[i].width as int, target_width as int));
        assert(e == StitchError::CanvasTooTall);
        let n = choose|n: Pixels| #[trigger]
            normal_of(all[i], n, mode, target_width as int) && !push_fits(
                after(start, normals, s).canvas,
                n,
                s,
            );
        assert(n == all[i]);
        lemma_all_fit_prefix(start, all, i + 1, s);
        assert(all.take(i + 1).drop_last() =~= all.take(i));
        assert(all.take(i + 1).last() == all[i]);
    }
}

/// Makes the pages of a folder from its images. Each image is first brought
/// to the width of the canvas, where the mode asks for it; the pages are
/// those of `stitch_normalized` for the images so prepared.
///
/// A configuration that is not valid is refused. The run ends at the first
/// image that is too large to be scaled or that, as scaled, is too tall for
/// the canvas it meets. Where no image has to be
/// scaled, the run succeeds if every image finds room.
#[verifier::loop_isolation(false)]
pub fn stitch_images(settings: StitchSettings, target_width: u32, images: &Vec<Canvas>) -> (r:
    Result<Vec<Canvas>, RunError>)
    ensures
        match r {
            Ok(pages) => settings.valid() && ran(
                views(images@),
                target_width,
                &settings,
                views(pages@),
            ),
            Err(RunError::Config(e)) => settings.defect() == Some(e),
            Err(RunError::Image(i, e)) => settings.valid() && i < images@.len() && stopped(
                views(images@),
                target_width,
                &settings,
                i as int,
                e,
            ),
        },
        settings.valid() && all_fit(fresh(target_width, &settings), views(images@), &settings)
            && no_scaling(views(images@), settings.width_mode(), target_width as int) ==> r is Ok,
{
    let ghost s = settings;
    let ghost mode = settings.width_mode();
    let ghost start = fresh(target_width, &settings);
    let ghost all = views(images@);
    let mut stitcher = match Stitcher::new(settings, target_width) {
        Err(e) => {
            return Err(RunError::Config(e));
        },
        Ok(stitcher) => stitcher,
    };
    let mut pages: Vec<Canvas> = Vec::new();
    let ghost mut normals: Seq<Pixels> = Seq::empty();
    let mut i: usize = 0;
    assert(views(pages@) =~= Seq::<Pixels>::empty());
    while i < images.len()
        invariant
            i <= images@.len(),
            stitcher.settings() == s,
            mode != WidthMode::NoEnforcement ==> stitcher.canvas().width == target_width,
            normals_of(all.take(i as int), normals, mode, target_width as int),
            all_fit(start, normals, &s),
            after(start, normals, &s) == (Outcome {
                canvas: stitcher.canvas(),
                pages: views(pages@),
            }),
        decreases images@.len() - i,
    {
        let ghost done = views(pages@);
        let ghost held = stitcher.canvas();
        let ghost image = images@[i as int]@;
        proof {
            assert(all[i as int] == image);
            assert(normalize_fits(image, mode, held.width as int) == normalize_fits(
                image,
                mode,
                target_width as int,
            ));
        }
        match stitcher.push(&images[i]) {
            Ok(mut more) => {
                let ghost added = views(more@);
                proof {
                    let n = choose|n: Pixels|
                        {
                            &&& #[trigger] normal_of(image, n, mode, held.width as int)
                            &&& is_push_result(
                                held,
                                n,
                                &s,
                                Ok::<Vec<Canvas>, StitchError>(more),
                                stitcher.canvas(),
                            )
                        };
                    assert(normal_of(image, n, mode, target_width as int));
                    let longer = normals.push(n);
                    assert(longer.drop_last() =~= normals);
                    assert(longer.last() == n);
                    lemma_pushed(held, n, &s);
                    assert(normals_of(all.take(i + 1), longer, mode, target_width as int)) by {
                        assert forall|k: int| 0 <= k < i + 1 implies normal_of(
                            all.take(i + 1)[k],
                            #[trigger] longer[k],
                            mode,
                            target_width as int,
                        ) by {
                            if k < i {
                                assert(longer[k] == normals[k]);
                                assert(all.take(i + 1)[k] == all.take(i as int)[k]);
                            }
                        }
                    }
                    normals = longer;
                }
                pages.append(&mut more);
                assert(views(pages@) =~= done + added);
            },
            Err(e) => {
                proof {
                    assert(is_refusal(held, image, &s, target_width as int, e)) by {
                        if normalize_fits(image, mode, target_width as int) {
                            let n = choose|n: Pixels|
                                {
                                    &&& #[trigger] normal_of(image, n, mode, held.width as int)
                                    &&& is_push_result(
                                        held,
                                        n,
                                        &s,
                                        Err::<Vec<Canvas>, StitchError>(e),
                                        stitcher.canvas(),
                                    )
                                };
                            assert(normal_of(image, n, mode, target_width as int));
                            assert(!push_fits(held, n, &s));
                        }
                    }
                    lemma_stopped(all, normals, target_width, &s, i as int, e);
                }
                return Err(RunError::Image(i, e));
            },
        }
        i = i + 1;
    }
    assert(all.take(i as int) =~= all);
    let ghost done = views(pages@);
    match stitcher.finish() {
        Some(page) => {
            pages.push(page);
            assert(views(pages@) =~= done + seq![page@]);
        },
        None => {
            assert(done + Seq::<Pixels>::empty() =~= done);
        },
    }
    proof {
        assert(normals_of(all, normals, s.width_mode(), target_width as int));
        assert(views(pages@) == run(target_width, normals, &s));
        assert(ran(all, target_width, &s, views(pages@)));
    }
    Ok(pages)
}

} // verus!
