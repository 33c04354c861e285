use crate::buffer::PixelBuffer;
use vstd::prelude::*;

verus! {

/// A channel value lifted toward white by `offset`: the distance to 255 is
/// scaled by `(255 - offset) / 255` and rounded down.
pub open spec fn remap_spec(c: u8, offset: u8) -> int {
    255 - ((255 - c) * (255 - offset)) / 255
}

/// One channel value remapped by `offset`.
pub fn remap_channel(c: u8, offset: u8) -> (r: u8)
    ensures
        r == remap_spec(c, offset),
{
    let dist: u32 = 255 - c as u32;
    let scale: u32 = 255 - offset as u32;
    assert(dist * scale <= 255 * 255) by (nonlinear_arith)
        requires
            dist <= 255,
            scale <= 255,
    ;
    let prod: u32 = dist * scale;
    let lowered: u32 = prod / 255;
    assert(lowered <= 255);
    (255 - lowered) as u8
}

/// Lifts every channel of every pixel toward white by `offset`: 0 keeps the
/// picture as it is and 255 turns it pure white.
pub fn auto_brighten(img: &mut PixelBuffer, offset: u8)
    requires
        old(img).wf(),
    ensures
        final(img).wf(),
        final(img).width == old(img).width,
        final(img).height == old(img).height,
        final(img).data@.len() == old(img).data@.len(),
        forall|i: int|
            0 <= i < old(img).data@.len() ==> final(img).data@[i] as int == remap_spec(
                #[trigger] old(img).data@[i],
                offset,
            ),
        offset == 0 ==> final(img).data@ == old(img).data@,
        offset == 255 ==> forall|i: int|
            0 <= i < final(img).data@.len() ==> #[trigger] final(img).data@[i] == 255,
{
    if offset == 0 {
        proof {
            assert forall|i: int| 0 <= i < img.data@.len() implies img.data@[i] as int
                == remap_spec(#[trigger] img.data@[i], offset) by {
                lemma_remap_identity(img.data@[i]);
            }
        }
        return;
    }
    let n = img.data.len();
    let mut i: usize = 0;
    while i < n
        invariant
            0 <= i <= n,
            n == old(img).data@.len(),
            img.width == old(img).width,
            img.height == old(img).height,
            img.data@.len() == n,
            forall|j: int| 0 <= j < i ==> img.data@[j] as int == remap_spec(
                #[trigger] old(img).data@[j],
                offset,
            ),
            forall|j: int| i <= j < n ==> #[trigger] img.data@[j] == old(img).data@[j],
        decreases n - i,
    {
        let v = remap_channel(img.data[i], offset);
        img.data.set(i, v);
        i += 1;
    }
    proof {
        if offset == 255 {
            assert forall|j: int| 0 <= j < img.data@.len() implies #[trigger] img.data@[j]
                == 255 by {
                lemma_remap_saturation(old(img).data@[j]);
            }
        }
    }
}

/// Remapping by 0 keeps a channel value.
pub proof fn lemma_remap_identity(c: u8)
    ensures
        remap_spec(c, 0) == c,
{
    assert((255 - c) * 255 / 255 == 255 - c) by (nonlinear_arith);
}

/// Remapping by 255 turns any channel value white.
pub proof fn lemma_remap_saturation(c: u8)
    ensures
        remap_spec(c, 255) == 255,
{
}

/// For a channel below 255 the lifted value never decreases as the offset
/// grows.
pub proof fn lemma_remap_monotonic(c: u8, offset1: u8, offset2: u8)
    requires
        c < 255,
        offset1 < offset2,
    ensures
        remap_spec(c, offset1) <= remap_spec(c, offset2),
{
    let d = 255 - c;
    assert(d * (255 - offset2) <= d * (255 - offset1)) by (nonlinear_arith)
        requires
            d >= 0,
            255 - offset2 <= 255 - offset1,
    ;
    lemma_div_monotonic(d * (255 - offset2), d * (255 - offset1));
}

proof fn lemma_div_monotonic(a: int, b: int)
    requires
        0 <= a <= b,
    ensures
        a / 255 <= b / 255,
{
    assert(a / 255 <= b / 255) by (nonlinear_arith)
        requires
            0 <= a <= b,
    ;
}

} // verus!
