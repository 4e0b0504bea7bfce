//! Where to cut: the search for a row that a cut does not damage.

use vstd::prelude::*;
use crate::canvas::{Canvas, Pixels};
use crate::models::{DetectorType, StitchSettings};

verus! {

/// The largest jump in brightness between two neighbouring columns that a
/// clean row may show: 255 at sensitivity 0, nothing at sensitivity 100.
pub open spec fn threshold(sensitivity: u8) -> int {
    255 * (100 - sensitivity) / 100
}

/// The first column that the test of a row looks at.
pub open spec fn scan_from(width: int, margin: int) -> int {
    if margin < width {
        margin
    } else {
        0
    }
}

/// The column before which the test of a row ends. A margin as wide as the
/// picture is ignored; one of half its width or more leaves nothing to test.
pub open spec fn scan_to(width: int, margin: int) -> int {
    if margin < width {
        width - margin
    } else {
        width
    }
}

/// How far the brightness of column `x + 1` is from that of column `x`.
pub open spec fn jump(g: Pixels, x: int, y: int) -> int {
    let d = g.gray(x + 1, y) - g.gray(x, y);
    if d < 0 {
        -d
    } else {
        d
    }
}

/// Row `y` is clean: between the margins no two neighbouring columns differ
/// in brightness by more than `limit`.
pub open spec fn row_is_clean(g: Pixels, y: int, margin: int, limit: int) -> bool {
    forall|x: int|
        scan_from(g.width as int, margin) <= x && x + 1 < scan_to(g.width as int, margin)
            ==> #[trigger] jump(g, x, y) <= limit
}

/// What a search is given: the row of the target line, the wanted height up
/// to that line, the stride, and the two numbers of the row test.
pub struct Search {
    pub line: int,
    pub target: int,
    pub step: int,
    pub margin: int,
    pub limit: int,
}

impl Search {
    /// The search goes upwards by no more than this: four tenths of the
    /// target height.
    pub open spec fn up_span(self) -> int {
        self.target * 2 / 5
    }

    /// The search goes downwards by no more than this.
    pub open spec fn down_span(self) -> int {
        self.target / 2
    }

    /// The row `off` rows above the line is clean.
    pub open spec fn clean_above(self, g: Pixels, off: int) -> bool {
        row_is_clean(g, self.line - off, self.margin, self.limit)
    }

    /// The row `off` rows below the line is clean.
    pub open spec fn clean_below(self, g: Pixels, off: int) -> bool {
        row_is_clean(g, self.line + off, self.margin, self.limit)
    }

    /// Starting `off` rows above the line, the search upwards looks at the
    /// row `j` strides further up: it is no more than `up_span` from the
    /// line.
    pub open spec fn seen_above(self, off: int, j: int) -> bool {
        &&& 0 <= j
        &&& off + j * self.step <= self.up_span()
    }

    /// The row `j` strides above the row `off` rows above the line is clean.
    pub open spec fn hit_above(self, g: Pixels, off: int, j: int) -> bool {
        self.clean_above(g, off + j * self.step)
    }

    /// Starting `off` rows below the line, the search downwards looks at
    /// the row `j` strides further down: the picture has that row, and it is
    /// no more than `down_span` from the line.
    pub open spec fn seen_below(self, g: Pixels, off: int, j: int) -> bool {
        &&& 0 <= j
        &&& off + j * self.step <= self.down_span()
        &&& self.line + off + j * self.step < g.height
    }

    /// The row `j` strides below the row `off` rows below the line is clean.
    pub open spec fn hit_below(self, g: Pixels, off: int, j: int) -> bool {
        self.clean_below(g, off + j * self.step)
    }

    /// The first clean row among those `off`, `off + step`, `off + 2 step`,
    /// ... rows above the line, as its distance from the line. A row is
    /// looked at only if it is no more than `up_span` away.
    pub open spec fn first_above(self, g: Pixels, off: int) -> Option<int>
        decreases self.up_span() + self.step - off,
    {
        if self.step <= 0 || off > self.up_span() {
            None
        } else if self.clean_above(g, off) {
            Some(off)
        } else {
            self.first_above(g, off + self.step)
        }
    }

    /// The first clean row among those `off`, `off + step`, ... rows below
    /// the line, as its distance from the line. A row is looked at only if
    /// the picture has it and it is no more than `down_span` away.
    pub open spec fn first_below(self, g: Pixels, off: int) -> Option<int>
        decreases self.down_span() + self.step - off,
    {
        if self.step <= 0 || off > self.down_span() || self.line + off >= g.height {
            None
        } else if self.clean_below(g, off) {
            Some(off)
        } else {
            self.first_below(g, off + self.step)
        }
    }

    /// The height to cut off: up to the first clean row found above the
    /// line, the line itself included in the search; else down to the first
    /// one found below it; else the target height.
    pub open spec fn cut(self, g: Pixels) -> int {
        match self.first_above(g, 0) {
            Some(off) => self.target - off,
            None => match self.first_below(g, self.step) {
                Some(off) => self.target + off,
                None => self.target,
            },
        }
    }
}

/// The height of the page to cut from `g`, measured from row `start_y`, when
/// `target_h` rows are wanted. A picture that ends at or before the target
/// line gives all it has left. Otherwise a direct split gives `target_h`, and
/// the smart detector what its search finds.
pub open spec fn cut_height(
    g: Pixels,
    start_y: int,
    target_h: int,
    detector: DetectorType,
    sensitivity: u8,
    scan_step: int,
    margin: int,
) -> int {
    if start_y + target_h >= g.height {
        g.height - start_y
    } else if detector == DetectorType::DirectSplit {
        target_h
    } else {
        (Search {
            line: start_y + target_h,
            target: target_h,
            step: scan_step,
            margin,
            limit: threshold(sensitivity),
        }).cut(g)
    }
}

/// The cut height under a configuration.
pub open spec fn cut_height_for(g: Pixels, start_y: int, target_h: int, s: &StitchSettings) -> int {
    cut_height(
        g,
        start_y,
        target_h,
        s.detector(),
        s.sensitivity,
        s.scan_step as int,
        s.ignorable_margin as int,
    )
}

/// A search upwards finds a clean row no further away than `up_span`.
pub proof fn lemma_first_above_bounds(s: Search, g: Pixels, off: int)
    requires
        0 <= off,
    ensures
        s.first_above(g, off) matches Some(found) ==> off <= found <= s.up_span()
            && s.clean_above(g, found),
    decreases s.up_span() + s.step - off,
{
    if s.step <= 0 || off > s.up_span() {
    } else if s.clean_above(g, off) {
    } else {
        lemma_first_above_bounds(s, g, off + s.step);
    }
}

/// A search downwards finds a row of the picture no further away than
/// `down_span`.
pub proof fn lemma_first_below_bounds(s: Search, g: Pixels, off: int)
    requires
        0 <= off,
    ensures
        s.first_below(g, off) matches Some(found) ==> off <= found <= s.down_span() && s.line
            + found < g.height && s.clean_below(g, found),
    decreases s.down_span() + s.step - off,
{
    if s.step <= 0 || off > s.down_span() || s.line + off >= g.height {
    } else if s.clean_below(g, off) {
    } else {
        lemma_first_below_bounds(s, g, off + s.step);
    }
}

/// One stride more from one stride further is as many strides from here.
proof fn lemma_stride(off: int, step: int, j: int)
    ensures
        (off + step) + (j - 1) * step == off + j * step,
        j >= 1 && step > 0 ==> (j - 1) * step >= 0,
{
    assert((off + step) + (j - 1) * step == off + j * step) by (nonlinear_arith);
    if j >= 1 && step > 0 {
        assert((j - 1) * step >= 0) by (nonlinear_arith)
            requires
                j >= 1,
                step > 0,
        ;
    }
}

/// The row that a search upwards finds is the first clean one among the
/// rows it looks at, and it finds one if one of them is clean.
pub proof fn lemma_first_above_is_first(s: Search, g: Pixels, off: int)
    requires
        0 <= off,
        0 < s.step,
    ensures
        match s.first_above(g, off) {
            Some(found) => exists|k: int|
                {
                    &&& s.seen_above(off, k)
                    &&& #[trigger] s.hit_above(g, off, k)
                    &&& found == off + k * s.step
                    &&& forall|j: int| 0 <= j < k ==> !#[trigger] s.hit_above(g, off, j)
                },
            None => forall|j: int| s.seen_above(off, j) ==> !#[trigger] s.hit_above(g, off, j),
        },
    decreases s.up_span() + s.step - off,
{
    let next = off + s.step;
    if off > s.up_span() {
        assert forall|j: int| s.seen_above(off, j) implies !#[trigger] s.hit_above(g, off, j) by {
            assert(j * s.step >= 0) by (nonlinear_arith)
                requires
                    j >= 0,
                    s.step > 0,
            ;
        }
    } else if s.clean_above(g, off) {
        assert(s.seen_above(off, 0) && s.hit_above(g, off, 0));
    } else {
        lemma_first_above_is_first(s, g, next);
        assert(!s.hit_above(g, off, 0));
        match s.first_above(g, next) {
            Some(found) => {
                let k = choose|k: int|
                    {
                        &&& s.seen_above(next, k)
                        &&& #[trigger] s.hit_above(g, next, k)
                        &&& found == next + k * s.step
                        &&& forall|j: int| 0 <= j < k ==> !#[trigger] s.hit_above(g, next, j)
                    };
                lemma_stride(off, s.step, k + 1);
                assert(s.seen_above(off, k + 1));
                assert(s.hit_above(g, off, k + 1));
                assert forall|j: int| 0 <= j < k + 1 implies !#[trigger] s.hit_above(
                    g,
                    off,
                    j,
                ) by {
                    if j >= 1 {
                        lemma_stride(off, s.step, j);
                        assert(!s.hit_above(g, next, j - 1));
                    }
                }
            },
            None => {
                assert forall|j: int| s.seen_above(off, j) implies !#[trigger] s.hit_above(
                    g,
                    off,
                    j,
                ) by {
                    if j >= 1 {
                        lemma_stride(off, s.step, j);
                        assert(s.seen_above(next, j - 1));
                        assert(!s.hit_above(g, next, j - 1));
                    }
                }
            },
        }
    }
}

/// The row that a search downwards finds is the first clean one among the
/// rows it looks at, and it finds one if one of them is clean.
pub proof fn lemma_first_below_is_first(s: Search, g: Pixels, off: int)
    requires
        0 <= off,
        0 < s.step,
    ensures
        match s.first_below(g, off) {
            Some(found) => exists|k: int|
                {
                    &&& s.seen_below(g, off, k)
                    &&& #[trigger] s.hit_below(g, off, k)
                    &&& found == off + k * s.step
                    &&& forall|j: int| 0 <= j < k ==> !#[trigger] s.hit_below(g, off, j)
                },
            None => forall|j: int| s.seen_below(g, off, j) ==> !#[trigger] s.hit_below(g, off, j),
        },
    decreases s.down_span() + s.step - off,
{
    let next = off + s.step;
    if off > s.down_span() || s.line + off >= g.height {
        assert forall|j: int| s.seen_below(g, off, j) implies !#[trigger] s.hit_below(
            g,
            off,
            j,
        ) by {
            assert(j * s.step >= 0) by (nonlinear_arith)
                requires
                    j >= 0,
                    s.step > 0,
            ;
        }
    } else if s.clean_below(g, off) {
        assert(s.seen_below(g, off, 0) && s.hit_below(g, off, 0));
    } else {
        lemma_first_below_is_first(s, g, next);
        assert(!s.hit_below(g, off, 0));
        match s.first_below(g, next) {
            Some(found) => {
                let k = choose|k: int|
                    {
                        &&& s.seen_below(g, next, k)
                        &&& #[trigger] s.hit_below(g, next, k)
                        &&& found == next + k * s.step
                        &&& forall|j: int| 0 <= j < k ==> !#[trigger] s.hit_below(g, next, j)
                    };
                lemma_stride(off, s.step, k + 1);
                assert(s.seen_below(g, off, k + 1));
                assert(s.hit_below(g, off, k + 1));
                assert forall|j: int| 0 <= j < k + 1 implies !#[trigger] s.hit_below(
                    g,
                    off,
                    j,
                ) by {
                    if j >= 1 {
                        lemma_stride(off, s.step, j);
                        assert(!s.hit_below(g, next, j - 1));
                    }
                }
            },
            None => {
                assert forall|j: int| s.seen_below(g, off, j) implies !#[trigger] s.hit_below(
                    g,
                    off,
                    j,
                ) by {
                    if j >= 1 {
                        lemma_stride(off, s.step, j);
                        assert(s.seen_below(g, next, j - 1));
                        assert(!s.hit_below(g, next, j - 1));
                    }
                }
            },
        }
    }
}

/// A cut takes no more than the picture has left, at most one and a half
/// times the target height, and at least one row when a row is wanted and
/// one is left. From a picture that reaches below the target line it takes
/// at least six tenths of the target height.
pub proof fn lemma_cut_height_bounds(
    g: Pixels,
    start_y: int,
    target_h: int,
    detector: DetectorType,
    sensitivity: u8,
    scan_step: int,
    margin: int,
)
    requires
        0 <= start_y <= g.height,
        0 <= target_h,
        detector == DetectorType::Smart ==> 0 < scan_step,
    ensures
        0 <= cut_height(g, start_y, target_h, detector, sensitivity, scan_step, margin) <= g.height
            - start_y,
        start_y + target_h < g.height ==> cut_height(
            g,
            start_y,
            target_h,
            detector,
            sensitivity,
            scan_step,
            margin,
        ) >= target_h - target_h * 2 / 5,
        cut_height(g, start_y, target_h, detector, sensitivity, scan_step, margin) <= target_h
            + target_h / 2,
        target_h > 0 && start_y < g.height ==> cut_height(
            g,
            start_y,
            target_h,
            detector,
            sensitivity,
            scan_step,
            margin,
        ) > 0,
        detector == DetectorType::DirectSplit ==> cut_height(
            g,
            start_y,
            target_h,
            detector,
            sensitivity,
            scan_step,
            margin,
        ) == (if start_y + target_h >= g.height {
            g.height - start_y
        } else {
            target_h
        }),
{
    let s = Search {
        line: start_y + target_h,
        target: target_h,
        step: scan_step,
        margin,
        limit: threshold(sensitivity),
    };
    lemma_first_above_bounds(s, g, 0);
    if scan_step > 0 {
        lemma_first_below_bounds(s, g, scan_step);
    }
}

/// Where no row of the picture is clean, the search finds nothing above the
/// line.
proof fn lemma_nothing_above(s: Search, g: Pixels, off: int)
    requires
        0 <= off,
        s.line < g.height,
        s.target <= s.line,
        forall|y: int| 0 <= y < g.height ==> !row_is_clean(g, y, s.margin, s.limit),
    ensures
        s.first_above(g, off) is None,
    decreases s.up_span() + s.step - off,
{
    if s.step <= 0 || off > s.up_span() {
    } else {
        lemma_nothing_above(s, g, off + s.step);
    }
}

/// Where no row of the picture is clean, the search finds nothing below the
/// line.
proof fn lemma_nothing_below(s: Search, g: Pixels, off: int)
    requires
        0 <= off,
        0 <= s.line,
        forall|y: int| 0 <= y < g.height ==> !row_is_clean(g, y, s.margin, s.limit),
    ensures
        s.first_below(g, off) is None,
    decreases s.down_span() + s.step - off,
{
    if s.step <= 0 || off > s.down_span() || s.line + off >= g.height {
    } else {
        lemma_nothing_below(s, g, off + s.step);
    }
}

/// At sensitivity 100 a picture that reaches below the target line and has
/// no row of one brightness between the margins is cut at the target height:
/// neither search finds a clean row.
pub proof fn lemma_full_sensitivity_cuts_at_target(
    g: Pixels,
    start_y: int,
    target_h: int,
    detector: DetectorType,
    scan_step: int,
    margin: int,
)
    requires
        0 <= start_y,
        0 <= target_h,
        start_y + target_h < g.height,
        forall|y: int| 0 <= y < g.height ==> !row_is_clean(g, y, margin, 0),
    ensures
        cut_height(g, start_y, target_h, detector, 100, scan_step, margin) == target_h,
{
    let s = Search { line: start_y + target_h, target: target_h, step: scan_step, margin, limit: 0 };
    assert(threshold(100) == 0);
    lemma_nothing_above(s, g, 0);
    if scan_step > 0 {
        lemma_nothing_below(s, g, scan_step);
    }
}

/// Two neighbouring columns never differ in brightness by more than 255.
pub proof fn lemma_jump_at_most_255(g: Pixels, x: int, y: int)
    ensures
        0 <= jump(g, x, y) <= 255,
{
}

/// At sensitivity 0 every row is clean, so the search stops at the target
/// line, the first row it looks at: the cut has the target height, or what
/// the picture has left if that is less.
pub proof fn lemma_zero_sensitivity_cuts_at_line(
    g: Pixels,
    start_y: int,
    target_h: int,
    detector: DetectorType,
    scan_step: int,
    margin: int,
)
    requires
        0 <= start_y <= g.height,
        0 <= target_h,
        0 < scan_step,
    ensures
        forall|y: int| row_is_clean(g, y, margin, threshold(0)),
        cut_height(g, start_y, target_h, detector, 0, scan_step, margin) == (if start_y + target_h
            >= g.height {
            g.height - start_y
        } else {
            target_h
        }),
{
    assert(threshold(0) == 255);
    assert forall|y: int| row_is_clean(g, y, margin, 255) by {
        assert forall|x: int|
            scan_from(g.width as int, margin) <= x && x + 1 < scan_to(g.width as int, margin)
                implies #[trigger] jump(g, x, y) <= 255 by {
            lemma_jump_at_most_255(g, x, y);
        }
    }
    let s = Search {
        line: start_y + target_h,
        target: target_h,
        step: scan_step,
        margin,
        limit: 255,
    };
    if start_y + target_h < g.height && detector != DetectorType::DirectSplit {
        assert(s.clean_above(g, 0));
        assert(s.first_above(g, 0) == Some(0int));
    }
}

/// The threshold that a sensitivity stands for.
pub fn threshold_of(sensitivity: u8) -> (limit: u8)
    requires
        sensitivity <= 100,
    ensures
        limit == threshold(sensitivity),
{
    let scaled: u32 = 255 * (100 - sensitivity as u32) / 100;
    scaled as u8
}

/// Tests one row: true when, between the margins, no two neighbouring
/// columns differ in brightness by more than `limit`.
pub fn is_clean_row(img: &Canvas, y: u32, margin: u32, limit: u8) -> (clean: bool)
    requires
        y < img@.height,
    ensures
        clean == row_is_clean(img@, y as int, margin as int, limit as int),
{
    let width = img.width();
    let from = if margin < width {
        margin
    } else {
        0
    };
    let to = if margin < width {
        width - margin
    } else {
        width
    };
    if to <= from {
        return true;
    }
    let mut prev = img.gray(from, y);
    let mut x = from + 1;
    while x < to
        invariant
            from < x <= to <= width,
            width == img@.width,
            y < img@.height,
            from == scan_from(img@.width as int, margin as int),
            to == scan_to(img@.width as int, margin as int),
            prev == img@.gray(x - 1, y as int),
            forall|k: int| from <= k && k + 1 < x ==> #[trigger] jump(img@, k, y as int) <= limit,
        decreases to - x,
    {
        let cur = img.gray(x, y);
        let d = if cur > prev {
            cur - prev
        } else {
            prev - cur
        };
        if d > limit {
            assert(jump(img@, x - 1, y as int) > limit);
            return false;
        }
        prev = cur;
        x = x + 1;
    }
    true
}

/// Chooses the height of the next page: how many rows to cut off `img`,
/// counted from row `start_y`, when `target_h` rows are wanted.
///
/// If the picture ends at or before the target line, all that is left is
/// cut off. Otherwise a direct split cuts at the target line, and the smart
/// detector looks for a clean row: first at the line and upwards from it in
/// strides of the scan step, no further than four tenths of the target
/// height, then downwards, no further than half of it, and cuts at the
/// target line if it finds none.
#[verifier::loop_isolation(false)]
pub fn find_cut_line(img: &Canvas, start_y: u32, target_h: u32, settings: &StitchSettings) -> (cut:
    u32)
    requires
        settings.valid(),
        start_y <= img@.height,
    ensures
        cut == cut_height_for(img@, start_y as int, target_h as int, settings),
        cut <= img@.height - start_y,
        cut <= target_h + target_h / 2,
        target_h > 0 && start_y < img@.height ==> cut > 0,
        start_y + target_h < img@.height ==> cut >= target_h - target_h * 2 / 5,
{
    let height = img.height();
    let line: u64 = start_y as u64 + target_h as u64;
    proof {
        lemma_cut_height_bounds(
            img@,
            start_y as int,
            target_h as int,
            settings.detector(),
            settings.sensitivity,
            settings.scan_step as int,
            settings.ignorable_margin as int,
        );
    }
    if line >= height as u64 {
        return height - start_y;
    }
    match settings.detector() {
        DetectorType::DirectSplit => {
            return target_h;
        },
        DetectorType::Smart => {},
    }
    let limit = threshold_of(settings.sensitivity);
    let margin = settings.ignorable_margin;
    let step = settings.scan_step as u64;
    let target = target_h as u64;
    let up_span: u64 = target * 2 / 5;
    let down_span: u64 = target / 2;
    let ghost s = Search {
        line: line as int,
        target: target as int,
        step: step as int,
        margin: margin as int,
        limit: limit as int,
    };
    let mut off: u64 = 0;
    while off <= up_span
        invariant
            s.first_above(img@, 0) == s.first_above(img@, off as int),
            off <= up_span + step,
        decreases up_span + step - off,
    {
        if is_clean_row(img, (line - off) as u32, margin, limit) {
            return (target - off) as u32;
        }
        off = off + step;
    }
    let mut off: u64 = step;
    while off <= down_span && line + off < height as u64
        invariant
            s.first_above(img@, 0) is None,
            s.first_below(img@, s.step) == s.first_below(img@, off as int),
            s.line == line,
            s.target == target,
            s.step == step,
            s.margin == margin,
            s.limit == limit,
            s.down_span() == down_span,
            0 < step <= u32::MAX,
            target <= u32::MAX,
            off <= down_span + step,
            line == start_y + target,
            height == img@.height,
        decreases down_span + step - off,
    {
        if is_clean_row(img, (line + off) as u32, margin, limit) {
            return (target + off) as u32;
        }
        off = off + step;
    }
    target_h
}

} // verus!
