//! Alpha compositing of one color over another.
use vstd::prelude::*;
use crate::canvas::Color;

verus! {

/// One color channel of `fg` (alpha `fa`) laid over `bg` (alpha `ba > 0`): with the
/// factor `a = fa / ba` taken on the raw 0..=255 alphas, the value
/// `fg * a + bg * (1 - a)`, cut off below at 0 and above at 255, rounded down.
pub open spec fn blend_channel(bg: u8, fg: u8, ba: u8, fa: u8) -> u8 {
    let n = fg as int * fa as int + bg as int * (ba as int - fa as int);
    if n <= 0 {
        0
    } else if n / (ba as int) >= 255 {
        255
    } else {
        (n / (ba as int)) as u8
    }
}

/// `fg` laid over `bg`. The alpha that results, `fa + ba * (1 - fa / ba)`, is `ba`
/// itself. Over a fully transparent background the factor has no value and the
/// result is transparent black.
pub open spec fn blend_spec(bg: Color, fg: Color) -> Color {
    if bg.3 == 0 {
        (0, 0, 0, 0)
    } else {
        (
            blend_channel(bg.0, fg.0, bg.3, fg.3),
            blend_channel(bg.1, fg.1, bg.3, fg.3),
            blend_channel(bg.2, fg.2, bg.3, fg.3),
            bg.3,
        )
    }
}

fn blend_one(bg: u8, fg: u8, ba: u8, fa: u8) -> (r: u8)
    requires
        ba > 0,
    ensures
        r == blend_channel(bg, fg, ba, fa),
{
    let (f, b, fal, bal) = (fg as u32, bg as u32, fa as u32, ba as u32);
    assert(f * fal <= 255 * 255 && b * bal <= 255 * 255 && b * fal <= 255 * 255) by (nonlinear_arith)
        requires
            f <= 255,
            b <= 255,
            fal <= 255,
            bal <= 255,
    ;
    let plus: u32 = f * fal + b * bal;
    let minus: u32 = b * fal;
    assert(plus as int - minus as int == fg as int * fa as int + bg as int * (ba as int - fa as int))
        by (nonlinear_arith)
        requires
            plus == f * fal + b * bal,
            minus == b * fal,
            f == fg,
            b == bg,
            fal == fa,
            bal == ba,
    ;
    if plus <= minus {
        0
    } else {
        let q: u32 = (plus - minus) / bal;
        if q >= 255 {
            255
        } else {
            q as u8
        }
    }
}

/// Composites `fg` over `bg`.
pub fn blend(bg: Color, fg: Color) -> (r: Color)
    ensures
        r == blend_spec(bg, fg),
{
    if bg.3 == 0 {
        return (0, 0, 0, 0);
    }
    (
        blend_one(bg.0, fg.0, bg.3, fg.3),
        blend_one(bg.1, fg.1, bg.3, fg.3),
        blend_one(bg.2, fg.2, bg.3, fg.3),
        bg.3,
    )
}

proof fn lemma_channel_identity(bg: u8, fg: u8, ba: u8)
    requires
        ba > 0,
    ensures
        blend_channel(bg, fg, ba, ba) == fg,
        blend_channel(bg, fg, ba, 0) == bg,
{
    assert((fg as int * ba as int) / (ba as int) == fg as int) by (nonlinear_arith)
        requires
            ba > 0,
    ;
    assert((bg as int * ba as int) / (ba as int) == bg as int) by (nonlinear_arith)
        requires
            ba > 0,
    ;
    assert(fg as int * ba as int >= 0) by (nonlinear_arith);
    assert(bg as int * ba as int >= 0) by (nonlinear_arith);
    assert(fg as int * 0 == 0);
}

/// Over a background that is not fully transparent, a foreground of the same alpha
/// keeps its own red, green and blue, and a fully transparent foreground leaves the
/// background's.
pub proof fn lemma_blend_identity(bg: Color, fg: Color)
    requires
        bg.3 > 0,
    ensures
        fg.3 == bg.3 ==> (blend_spec(bg, fg).0, blend_spec(bg, fg).1, blend_spec(bg, fg).2) == (
            fg.0,
            fg.1,
            fg.2,
        ),
        fg.3 == 0 ==> (blend_spec(bg, fg).0, blend_spec(bg, fg).1, blend_spec(bg, fg).2) == (
            bg.0,
            bg.1,
            bg.2,
        ),
{
    lemma_channel_identity(bg.0, fg.0, bg.3);
    lemma_channel_identity(bg.1, fg.1, bg.3);
    lemma_channel_identity(bg.2, fg.2, bg.3);
}

} // verus!
