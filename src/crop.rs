use crate::buffer::{channel_index, PixelBuffer};
use crate::scan::{
    is_tight_bound, lemma_tight_bound_unique, scan_borders, BoundingRect, NoContentFound,
};
use vstd::prelude::*;

verus! {

/// The requested rectangle is empty or reaches past the picture.
#[derive(Clone, Copy, Debug, PartialEq, Eq, Structural)]
pub struct OutOfBounds;

/// `r` is non-empty and lies inside `img`.
pub open spec fn rect_fits(img: &PixelBuffer, r: BoundingRect) -> bool {
    &&& r.width > 0
    &&& r.height > 0
    &&& r.left + r.width <= img.width
    &&& r.top + r.height <= img.height
}

/// `out` holds exactly the pixels of `src` inside `r`, in the same layout.
pub open spec fn is_crop_of(out: &PixelBuffer, src: &PixelBuffer, r: BoundingRect) -> bool {
    &&& out.wf()
    &&& out.width == r.width
    &&& out.height == r.height
    &&& forall|x: int, y: int, c: int|
        0 <= x < r.width && 0 <= y < r.height && 0 <= c < 3 ==> #[trigger] out.channel(x, y, c)
            == src.channel(r.left + x, r.top + y, c)
}

/// Channels of pixels before `(x2, y2)` in row-major order come before that
/// pixel's first channel.
proof fn lemma_index_before(w: int, x1: int, y1: int, c: int, x2: int, y2: int)
    requires
        0 <= x1 < w,
        0 <= x2 <= w,
        0 <= y1,
        0 <= c < 3,
        y1 < y2 || (y1 == y2 && x1 < x2),
    ensures
        0 <= channel_index(w, x1, y1, c) < channel_index(w, x2, y2, 0),
{
    assert(0 <= y1 * w) by (nonlinear_arith)
        requires
            0 <= y1,
            0 <= w,
    ;
    if y1 < y2 {
        assert(y1 * w + x1 < y2 * w) by (nonlinear_arith)
            requires
                0 <= x1 < w,
                y1 < y2,
        {
            assert((y1 + 1) * w <= y2 * w);
        }
    }
}

/// Copies the pixels of `img` inside `rect` into a buffer of their own.
/// Fails when `rect` is empty or reaches past the picture.
pub fn crop(img: &PixelBuffer, rect: BoundingRect) -> (r: Result<PixelBuffer, OutOfBounds>)
    requires
        img.wf(),
    ensures
        r is Ok <==> rect_fits(img, rect),
        r matches Ok(out) ==> is_crop_of(&out, img, rect),
{
    if rect.width == 0 || rect.height == 0 || rect.left as u64 + rect.width as u64
        > img.width as u64 || rect.top as u64 + rect.height as u64 > img.height as u64 {
        return Err(OutOfBounds);
    }
    let rw = rect.width;
    let rh = rect.height;
    let mut data: Vec<u8> = Vec::new();
    let mut y: u32 = 0;
    while y < rh
        invariant
            img.wf(),
            rect_fits(img, rect),
            rw == rect.width,
            rh == rect.height,
            y <= rh,
            data@.len() == channel_index(rw as int, 0, y as int, 0),
            forall|xx: int, yy: int, c: int|
                0 <= xx < rw && 0 <= yy < y && 0 <= c < 3 ==> #[trigger] data@[channel_index(
                    rw as int,
                    xx,
                    yy,
                    c,
                )] == img.channel(rect.left + xx, rect.top + yy, c),
        decreases rh - y,
    {
        let mut x: u32 = 0;
        while x < rw
            invariant
                img.wf(),
                rect_fits(img, rect),
                rw == rect.width,
                rh == rect.height,
                y < rh,
                x <= rw,
                data@.len() == channel_index(rw as int, x as int, y as int, 0),
                forall|xx: int, yy: int, c: int|
                    0 <= xx < rw && 0 <= yy <= y && (yy < y || xx < x) && 0 <= c < 3
                        ==> #[trigger] data@[channel_index(rw as int, xx, yy, c)] == img.channel(
                        rect.left + xx,
                        rect.top + yy,
                        c,
                    ),
            decreases rw - x,
        {
            let i = img.index_of(rect.left + x, rect.top + y);
            let ghost before = data@;
            data.push(img.data[i]);
            data.push(img.data[i + 1]);
            data.push(img.data[i + 2]);
            proof {
                assert forall|xx: int, yy: int, c: int|
                    0 <= xx < rw && 0 <= yy <= y && (yy < y || xx <= x) && 0 <= c < 3
                        implies #[trigger] data@[channel_index(rw as int, xx, yy, c)]
                    == img.channel(rect.left + xx, rect.top + yy, c) by {
                    if yy < y || xx < x {
                        lemma_index_before(rw as int, xx, yy, c, x as int, y as int);
                        assert(data@[channel_index(rw as int, xx, yy, c)] == before[channel_index(
                            rw as int,
                            xx,
                            yy,
                            c,
                        )]);
                    }
                }
            }
            x += 1;
        }
        assert(channel_index(rw as int, rw as int, y as int, 0) == channel_index(
            rw as int,
            0,
            y + 1,
            0,
        )) by (nonlinear_arith);
        y += 1;
    }
    let out = PixelBuffer { width: rw, height: rh, data };
    assert(channel_index(rw as int, 0, rh as int, 0) == rw * rh * 3) by (nonlinear_arith);
    Ok(out)
}

/// Crops away the dark border of `img`: the result holds exactly the tight
/// rectangle around its content. Fails when every pixel is background.
pub fn auto_crop(img: &PixelBuffer) -> (r: Result<PixelBuffer, NoContentFound>)
    requires
        img.wf(),
    ensures
        r is Err <==> !img.has_content(),
        r matches Ok(out) ==> exists|rect: BoundingRect|
            is_tight_bound(img, rect) && #[trigger] is_crop_of(&out, img, rect),
        r matches Ok(out) ==> forall|rect: BoundingRect|
            #[trigger] is_tight_bound(img, rect) ==> is_crop_of(&out, img, rect),
{
    match scan_borders(img) {
        Err(e) => Err(e),
        Ok(rect) => match crop(img, rect) {
            Ok(out) => {
                assert(is_tight_bound(img, rect) && is_crop_of(&out, img, rect));
                assert forall|other: BoundingRect| #[trigger]
                    is_tight_bound(img, other) implies is_crop_of(&out, img, other) by {
                    lemma_tight_bound_unique(img, rect, other);
                }
                let r: Result<PixelBuffer, NoContentFound> = Ok(out);
                assert(r matches Ok(o) && is_crop_of(&o, img, rect));
                r
            },
            Err(_) => {
                // a tight bound always fits inside the picture
                assert(false);
                Err(NoContentFound)
            },
        },
    }
}

} // verus!
