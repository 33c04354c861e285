use crate::buffer::PixelBuffer;
use vstd::prelude::*;

verus! {

/// Extent of the content in one row.
#[derive(Clone, Copy, Debug, PartialEq, Eq, Structural)]
pub enum RowBounds {
    /// Every pixel of the row is background.
    Empty,
    /// Content starts at column `left` and ends just before column `right`.
    Segment { left: u32, right: u32 },
}

/// A rectangle in pixel coordinates: `width` columns from `left` and
/// `height` rows from `top`.
#[derive(Clone, Copy, Debug, PartialEq, Eq, Structural)]
pub struct BoundingRect {
    pub left: u32,
    pub top: u32,
    pub width: u32,
    pub height: u32,
}

/// The whole picture is background; there is nothing to crop to.
#[derive(Clone, Copy, Debug, PartialEq, Eq, Structural)]
pub struct NoContentFound;

/// Columns `left .. right` of row `y` are the tightest span that holds all of
/// the row's content.
pub open spec fn is_row_segment(img: &PixelBuffer, y: int, left: int, right: int) -> bool {
    &&& 0 <= left < right <= img.width
    &&& img.is_content(left, y)
    &&& img.is_content(right - 1, y)
    &&& forall|x: int|
        0 <= x < img.width && #[trigger] img.is_content(x, y) ==> left <= x < right
}

/// `r` is the tightest rectangle that holds every content pixel of `img`:
/// it lies inside the picture, holds all content, and each of its four edges
/// touches a content pixel.
pub open spec fn is_tight_bound(img: &PixelBuffer, r: BoundingRect) -> bool {
    &&& r.width > 0
    &&& r.height > 0
    &&& r.left + r.width <= img.width
    &&& r.top + r.height <= img.height
    &&& forall|x: int, y: int|
        0 <= x < img.width && 0 <= y < img.height && #[trigger] img.is_content(x, y) ==> r.left
            <= x < r.left + r.width && r.top <= y < r.top + r.height
    &&& exists|y: int| 0 <= y < img.height && #[trigger] img.is_content(r.left as int, y)
    &&& exists|y: int|
        0 <= y < img.height && #[trigger] img.is_content(r.left + r.width - 1, y)
    &&& exists|x: int| 0 <= x < img.width && #[trigger] img.is_content(x, r.top as int)
    &&& exists|x: int|
        0 <= x < img.width && #[trigger] img.is_content(x, r.top + r.height - 1)
}

/// Finds where the content of row `y` begins and ends, in one pass over the
/// row: the leading background pixels are counted first, then the end of the
/// last content pixel is tracked to the end of the row.
pub fn row_bounds(img: &PixelBuffer, y: u32) -> (r: RowBounds)
    requires
        img.wf(),
        y < img.height,
    ensures
        r is Empty <==> img.row_is_background(y as int),
        r matches RowBounds::Segment { left, right } ==> is_row_segment(
            img,
            y as int,
            left as int,
            right as int,
        ),
{
    let w = img.width;
    let mut left: u32 = 0;
    while left < w && !img.content_at(left, y)
        invariant
            img.wf(),
            y < img.height,
            w == img.width,
            left <= w,
            forall|x: int| 0 <= x < left ==> !#[trigger] img.is_content(x, y as int),
        decreases w - left,
    {
        left += 1;
    }
    if left == w {
        return RowBounds::Empty;
    }
    let mut right: u32 = left + 1;
    let mut cursor: u32 = left + 1;
    while cursor < w
        invariant
            img.wf(),
            y < img.height,
            w == img.width,
            left < right <= cursor <= w,
            img.is_content(left as int, y as int),
            img.is_content(right - 1, y as int),
            forall|x: int| 0 <= x < left ==> !#[trigger] img.is_content(x, y as int),
            forall|x: int| right <= x < cursor ==> !#[trigger] img.is_content(x, y as int),
        decreases w - cursor,
    {
        if img.content_at(cursor, y) {
            right = cursor + 1;
        }
        cursor += 1;
    }
    RowBounds::Segment { left, right }
}

/// Finds the tight rectangle around all content of `img`, in one pass over
/// its rows. Fails when every pixel is background.
pub fn scan_borders(img: &PixelBuffer) -> (r: Result<BoundingRect, NoContentFound>)
    requires
        img.wf(),
    ensures
        r is Err <==> !img.has_content(),
        r matches Ok(rect) ==> is_tight_bound(img, rect),
{
    let w = img.width;
    let h = img.height;
    let mut left_crop: u32 = w;
    let mut right_crop: u32 = 0;
    let mut top_crop: u32 = 0;
    let mut bot_crop: u32 = 0;
    let mut y: u32 = 0;
    while y < h
        invariant
            img.wf(),
            w == img.width,
            h == img.height,
            y <= h,
            bot_crop == 0 ==> {
                &&& left_crop == w
                &&& right_crop == 0
                &&& top_crop == y
                &&& forall|yy: int| 0 <= yy < y ==> #[trigger] img.row_is_background(yy)
            },
            bot_crop > 0 ==> top_crop < bot_crop <= y,
            bot_crop > 0 ==> left_crop < right_crop <= w,
            bot_crop > 0 ==> forall|x: int, yy: int|
                0 <= x < w && 0 <= yy < y && #[trigger] img.is_content(x, yy) ==> left_crop <= x
                    < right_crop && top_crop <= yy < bot_crop,
            bot_crop > 0 ==> exists|yy: int|
                0 <= yy < y && #[trigger] img.is_content(left_crop as int, yy),
            bot_crop > 0 ==> exists|yy: int|
                0 <= yy < y && #[trigger] img.is_content(right_crop - 1, yy),
            bot_crop > 0 ==> exists|x: int|
                0 <= x < w && #[trigger] img.is_content(x, top_crop as int),
            bot_crop > 0 ==> exists|x: int|
                0 <= x < w && #[trigger] img.is_content(x, bot_crop - 1),
        decreases h - y,
    {
        let ghost old_left = left_crop;
        let ghost old_right = right_crop;
        let ghost old_bot = bot_crop;
        match row_bounds(img, y) {
            RowBounds::Empty => {
                if bot_crop == 0 {
                    top_crop += 1;
                }
                proof {
                    assert forall|x: int, yy: int|
                        0 <= x < w && 0 <= yy < y + 1 && #[trigger] img.is_content(x, yy)
                            implies yy < y by {
                        if yy == y {
                            assert(img.row_is_background(y as int));
                        }
                    }
                }
            },
            RowBounds::Segment { left, right } => {
                if left < left_crop {
                    left_crop = left;
                }
                if right > right_crop {
                    right_crop = right;
                }
                if bot_crop == 0 {
                    top_crop = y;
                }
                bot_crop = y + 1;
                proof {
                    assert(img.is_content(left as int, y as int));
                    assert(img.is_content(right - 1, y as int));
                    assert(img.is_content(left as int, bot_crop - 1));
                    assert forall|x: int, yy: int|
                        0 <= x < w && 0 <= yy < y + 1 && #[trigger] img.is_content(x, yy)
                            implies left_crop <= x < right_crop && top_crop <= yy < bot_crop by {
                        if yy < y && old_bot == 0 {
                            assert(img.row_is_background(yy));
                        }
                    }
                    if left_crop == old_left {
                        let yy = choose|yy: int|
                            0 <= yy < y && #[trigger] img.is_content(old_left as int, yy);
                        assert(img.is_content(left_crop as int, yy));
                    }
                    if right_crop == old_right {
                        let yy = choose|yy: int|
                            0 <= yy < y && #[trigger] img.is_content(old_right - 1, yy);
                        assert(img.is_content(right_crop - 1, yy));
                    }
                    if old_bot > 0 {
                        let x = choose|x: int| 0 <= x < w && #[trigger] img.is_content(x, top_crop as int);
                        assert(img.is_content(x, top_crop as int));
                    }
                }
            },
        }
        y += 1;
    }
    if right_crop <= left_crop || bot_crop <= top_crop {
        proof {
            assert forall|x: int, yy: int| 0 <= x < w && 0 <= yy < h implies !#[trigger] img.is_content(x, yy) by {
                assert(img.row_is_background(yy));
            }
        }
        Err(NoContentFound)
    } else {
        let rect = BoundingRect {
            left: left_crop,
            top: top_crop,
            width: right_crop - left_crop,
            height: bot_crop - top_crop,
        };
        proof {
            let x = choose|x: int| 0 <= x < w && #[trigger] img.is_content(x, top_crop as int);
            assert(img.is_content(x, rect.top as int));
            let x2 = choose|x: int| 0 <= x < w && #[trigger] img.is_content(x, bot_crop - 1);
            assert(img.is_content(x2, rect.top + rect.height - 1));
            let y1 = choose|yy: int| 0 <= yy < h && #[trigger] img.is_content(left_crop as int, yy);
            assert(img.is_content(rect.left as int, y1));
            let y2 = choose|yy: int| 0 <= yy < h && #[trigger] img.is_content(right_crop - 1, yy);
            assert(img.is_content(rect.left + rect.width - 1, y2));
            assert(is_tight_bound(img, rect));
        }
        Ok(rect)
    }
}

/// The rectangle spanning columns `l .. rr` and rows `t .. bb` is the one
/// tight bound of `img` when it holds all content and content touches each of
/// its edges (at the given rows and columns).
proof fn lemma_box_is_tight_bound(
    img: &PixelBuffer,
    l: int,
    t: int,
    rr: int,
    bb: int,
    left_y: int,
    right_y: int,
    top_x: int,
    bot_x: int,
)
    requires
        img.wf(),
        0 <= l < rr <= img.width,
        0 <= t < bb <= img.height,
        forall|x: int, y: int|
            0 <= x < img.width && 0 <= y < img.height && #[trigger] img.is_content(x, y) ==> l <= x
                < rr && t <= y < bb,
        0 <= left_y < img.height && img.is_content(l, left_y),
        0 <= right_y < img.height && img.is_content(rr - 1, right_y),
        0 <= top_x < img.width && img.is_content(top_x, t),
        0 <= bot_x < img.width && img.is_content(bot_x, bb - 1),
    ensures
        img.has_content(),
        forall|r: BoundingRect|
            is_tight_bound(img, r) <==> r == (BoundingRect {
                left: l as u32,
                top: t as u32,
                width: (rr - l) as u32,
                height: (bb - t) as u32,
            }),
{
    assert forall|r: BoundingRect|
        is_tight_bound(img, r) <==> r == (BoundingRect {
            left: l as u32,
            top: t as u32,
            width: (rr - l) as u32,
            height: (bb - t) as u32,
        }) by {
        if is_tight_bound(img, r) {
            assert(img.is_content(l, left_y));
            assert(img.is_content(rr - 1, right_y));
            assert(img.is_content(top_x, t));
            assert(img.is_content(bot_x, bb - 1));
            let y1 = choose|y: int| 0 <= y < img.height && #[trigger] img.is_content(r.left as int, y);
            let y2 = choose|y: int|
                0 <= y < img.height && #[trigger] img.is_content(r.left + r.width - 1, y);
            let x1 = choose|x: int| 0 <= x < img.width && #[trigger] img.is_content(x, r.top as int);
            let x2 = choose|x: int|
                0 <= x < img.width && #[trigger] img.is_content(x, r.top + r.height - 1);
            assert(l <= r.left);
            assert(r.left + r.width - 1 < rr);
            assert(t <= r.top);
            assert(r.top + r.height - 1 < bb);
        }
        if r == (BoundingRect {
            left: l as u32,
            top: t as u32,
            width: (rr - l) as u32,
            height: (bb - t) as u32,
        }) {
            assert(img.is_content(r.left as int, left_y));
            assert(img.is_content(r.left + r.width - 1, right_y));
            assert(img.is_content(top_x, r.top as int));
            assert(img.is_content(bot_x, r.top + r.height - 1));
        }
    }
    assert(img.is_content(l, left_y));
}

/// A picture has at most one tight bound.
pub proof fn lemma_tight_bound_unique(img: &PixelBuffer, r1: BoundingRect, r2: BoundingRect)
    requires
        img.wf(),
        is_tight_bound(img, r1),
        is_tight_bound(img, r2),
    ensures
        r1 == r2,
{
    let left_y = choose|y: int| 0 <= y < img.height && #[trigger] img.is_content(r1.left as int, y);
    let right_y = choose|y: int|
        0 <= y < img.height && #[trigger] img.is_content(r1.left + r1.width - 1, y);
    let top_x = choose|x: int| 0 <= x < img.width && #[trigger] img.is_content(x, r1.top as int);
    let bot_x = choose|x: int|
        0 <= x < img.width && #[trigger] img.is_content(x, r1.top + r1.height - 1);
    lemma_box_is_tight_bound(
        img,
        r1.left as int,
        r1.top as int,
        r1.left + r1.width,
        r1.top + r1.height,
        left_y,
        right_y,
        top_x,
        bot_x,
    );
    assert(is_tight_bound(img, r1) && is_tight_bound(img, r2));
}

/// A picture of at least one pixel whose pixels are all content has the
/// whole picture as its one tight bound, so the scan reports exactly that.
pub proof fn lemma_all_content_bounds(img: &PixelBuffer)
    requires
        img.wf(),
        img.width > 0,
        img.height > 0,
        forall|x: int, y: int|
            0 <= x < img.width && 0 <= y < img.height ==> #[trigger] img.is_content(x, y),
    ensures
        img.has_content(),
        forall|r: BoundingRect|
            is_tight_bound(img, r) <==> r == (BoundingRect {
                left: 0,
                top: 0,
                width: img.width,
                height: img.height,
            }),
{
    let w = img.width as int;
    let h = img.height as int;
    assert(img.is_content(0, 0));
    assert(img.is_content(w - 1, 0));
    assert(img.is_content(0, h - 1));
    lemma_box_is_tight_bound(img, 0, 0, w, h, 0, 0, 0, 0);
}

/// A bright rectangle framed by a uniform dark border `b` pixels wide on
/// every side has the rectangle inside the frame as its one tight bound.
pub proof fn lemma_framed_content_bounds(img: &PixelBuffer, b: u32)
    requires
        img.wf(),
        2 * b < img.width,
        2 * b < img.height,
        forall|x: int, y: int|
            0 <= x < img.width && 0 <= y < img.height ==> (#[trigger] img.is_content(x, y) <==> (b
                <= x < img.width - b && b <= y < img.height - b)),
    ensures
        img.has_content(),
        forall|r: BoundingRect|
            is_tight_bound(img, r) <==> r == (BoundingRect {
                left: b,
                top: b,
                width: (img.width - 2 * b) as u32,
                height: (img.height - 2 * b) as u32,
            }),
{
    let w = img.width as int;
    let h = img.height as int;
    let bi = b as int;
    assert(img.is_content(bi, bi));
    assert(img.is_content(w - bi - 1, bi));
    assert(img.is_content(bi, h - bi - 1));
    lemma_box_is_tight_bound(img, bi, bi, w - bi, h - bi, bi, bi, bi, bi);
}

/// Two content bands, the first ending above a dark row that precedes the
/// second, give one tight bound: from the top of the first band to the bottom
/// of the second, and across the outermost columns of either band.
pub proof fn lemma_two_band_bounds(img: &PixelBuffer, upper: BoundingRect, lower: BoundingRect)
    requires
        img.wf(),
        upper.width > 0,
        upper.height > 0,
        lower.width > 0,
        lower.height > 0,
        upper.left + upper.width <= img.width,
        lower.left + lower.width <= img.width,
        upper.top + upper.height < lower.top,
        lower.top + lower.height <= img.height,
        forall|x: int, y: int|
            0 <= x < img.width && 0 <= y < img.height ==> (#[trigger] img.is_content(x, y) <==> (
            in_rect(upper, x, y) || in_rect(lower, x, y))),
    ensures
        img.has_content(),
        forall|r: BoundingRect|
            is_tight_bound(img, r) <==> r == (BoundingRect {
                left: min_u32(upper.left, lower.left),
                top: upper.top,
                width: (max_int(upper.left + upper.width, lower.left + lower.width) - min_u32(
                    upper.left,
                    lower.left,
                )) as u32,
                height: (lower.top + lower.height - upper.top) as u32,
            }),
{
    let l = min_u32(upper.left, lower.left) as int;
    let rr = max_int(upper.left + upper.width, lower.left + lower.width);
    let t = upper.top as int;
    let bb = lower.top + lower.height;
    let left_y = if upper.left <= lower.left { t } else { lower.top as int };
    let right_y = if upper.left + upper.width >= lower.left + lower.width { t } else { lower.top as int };
    assert(img.is_content(l, left_y));
    assert(img.is_content(rr - 1, right_y));
    assert(img.is_content(upper.left as int, t));
    assert(img.is_content(lower.left as int, bb - 1));
    lemma_box_is_tight_bound(img, l, t, rr, bb, left_y, right_y, upper.left as int, lower.left as int);
}

/// Pixel `(x, y)` lies inside `r`.
pub open spec fn in_rect(r: BoundingRect, x: int, y: int) -> bool {
    r.left <= x < r.left + r.width && r.top <= y < r.top + r.height
}

/// The smaller of two coordinates.
pub open spec fn min_u32(a: u32, b: u32) -> u32 {
    if a <= b {
        a
    } else {
        b
    }
}

/// The larger of two coordinates.
pub open spec fn max_int(a: int, b: int) -> int {
    if a >= b {
        a
    } else {
        b
    }
}

} // verus!
