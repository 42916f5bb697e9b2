use vstd::prelude::*;

verus! {

// ---------------------------------------------------------------------------
// Shading ramp
// ---------------------------------------------------------------------------

/// The characters that stand for light levels, from darkest to brightest:
/// `` `.,':;-^~=+*!oO#%@`` after a space.
pub open spec fn shade_ramp() -> Seq<u8> {
    seq![32u8, 96u8, 46u8, 44u8, 39u8, 58u8, 59u8, 45u8, 94u8, 126u8, 61u8, 43u8, 42u8, 33u8, 111u8, 79u8, 35u8, 37u8, 64u8]
}

/// The shading characters as text, darkest first.
pub open spec fn ramp_text() -> &'static str {
    " `.,':;-^~=+*!oO#%@"
}

/// The ramp is the text `` `.,':;-^~=+*!oO#%@`` after a space, character by character:
/// level 0 is a space, level 10 is `=`, level 17 is `%` and level 18 is `@`.
pub proof fn lemma_shade_ramp_is_ramp_text()
    ensures
        shade_ramp().len() == 19,
        ramp_text()@.len() == 19,
        forall|i: int| 0 <= i < 19 ==> #[trigger] shade_ramp()[i] as int == ramp_text()@[i] as int,
        shade_ramp()[0] == 32 && shade_ramp()[10] == 61 && shade_ramp()[17] == 37 && shade_ramp()[18] == 64,
{
    reveal_strlit(" `.,':;-^~=+*!oO#%@");
    assert(ramp_text()@ == " `.,':;-^~=+*!oO#%@"@);
}

/// The character for light level `level` on the ramp; levels past the brightest
/// character get the brightest character.
pub fn char_for_level(level: usize) -> (ch: u8)
    ensures
        ch == shade_ramp()[if level < 18 { level as int } else { 18 }],
        ch as int == ramp_text()@[if level < 18 { level as int } else { 18 }] as int,
{
    proof {
        lemma_shade_ramp_is_ramp_text();
    }
    let chars: [u8; 19] = [32u8, 96u8, 46u8, 44u8, 39u8, 58u8, 59u8, 45u8, 94u8, 126u8, 61u8, 43u8, 42u8, 33u8, 111u8, 79u8, 35u8, 37u8, 64u8];
    let idx = if level < 18 { level } else { 18 };
    let ch = chars[idx];
    assert(chars@ =~= shade_ramp());
    ch
}

// ---------------------------------------------------------------------------
// Triangle set-up
// ---------------------------------------------------------------------------

/// Whether an integer fits an `i32`.
pub open spec fn fits_i32(v: int) -> bool {
    i32::MIN <= v <= i32::MAX
}

/// Twice the signed area of the screen triangle, the denominator of its barycentric
/// weights.
pub open spec fn edge_denom(x0: int, y0: int, x1: int, y1: int, x2: int, y2: int) -> int {
    (y1 - y2) * (x0 - x2) + (x2 - x1) * (y0 - y2)
}

pub open spec fn min3(a: int, b: int, c: int) -> int {
    if a <= b && a <= c {
        a
    } else if b <= c {
        b
    } else {
        c
    }
}

pub open spec fn max3(a: int, b: int, c: int) -> int {
    if a >= b && a >= c {
        a
    } else if b >= c {
        b
    } else {
        c
    }
}

/// The lowest of three corner coordinates (columns or rows) that lies on screen:
/// their least, raised to 0.
pub open spec fn span_low(x0: int, x1: int, x2: int) -> int {
    if min3(x0, x1, x2) < 0 { 0 } else { min3(x0, x1, x2) }
}

/// The highest of three corner coordinates (columns or rows) that lies on a screen
/// `extent` cells across: their greatest, lowered to `extent - 1`.
pub open spec fn span_high(x0: int, x1: int, x2: int, extent: int) -> int {
    if max3(x0, x1, x2) > extent - 1 { extent - 1 } else { max3(x0, x1, x2) }
}

/// Whether `lo..=hi` is the span of the corner coordinates `a`, `b`, `c` on a screen
/// `extent` cells across: it holds every corner that lies on screen, starts at 0 or at
/// a corner, and ends at the last cell or at a corner.
pub open spec fn box_holds_corners(lo: int, hi: int, a: int, b: int, c: int, extent: int) -> bool {
    &&& (0 <= a < extent ==> lo <= a <= hi)
    &&& (0 <= b < extent ==> lo <= b <= hi)
    &&& (0 <= c < extent ==> lo <= c <= hi)
    &&& lo >= 0 && hi <= extent - 1
    &&& (lo == 0 || lo == a || lo == b || lo == c)
    &&& (hi == extent - 1 || hi == a || hi == b || hi == c)
}

/// Whether a screen `extent` cells across has a cell between the least and the greatest
/// of three corner coordinates: it has cells, some corner is not before its first cell,
/// and some corner is not past its last.
pub open spec fn spans_screen(a: int, b: int, c: int, extent: int) -> bool {
    &&& extent > 0
    &&& (a >= 0 || b >= 0 || c >= 0)
    &&& (a < extent || b < extent || c < extent)
}

/// The span of three coordinates on screen is the least of them raised to 0, and the
/// greatest lowered to the last cell: it starts at or before every corner (or at 0),
/// ends at or after every corner (or at the last cell), and each end is a corner or
/// the screen's edge.
pub proof fn lemma_span_is_corner_span(a: int, b: int, c: int, extent: int)
    ensures
        span_low(a, b, c) <= a || span_low(a, b, c) == 0,
        span_low(a, b, c) <= b || span_low(a, b, c) == 0,
        span_low(a, b, c) <= c || span_low(a, b, c) == 0,
        span_low(a, b, c) >= 0,
        span_low(a, b, c) == 0 || span_low(a, b, c) == a || span_low(a, b, c) == b || span_low(a, b, c) == c,
        span_low(a, b, c) > 0 ==> span_low(a, b, c) <= a && span_low(a, b, c) <= b && span_low(a, b, c) <= c,
        span_high(a, b, c, extent) <= extent - 1,
        span_high(a, b, c, extent) < extent - 1 ==> span_high(a, b, c, extent) >= a && span_high(a, b, c, extent) >= b && span_high(a, b, c, extent) >= c,
        span_high(a, b, c, extent) == extent - 1 || span_high(a, b, c, extent) == a || span_high(a, b, c, extent) == b || span_high(a, b, c, extent) == c,
        span_low(a, b, c) <= span_high(a, b, c, extent) ==> box_holds_corners(span_low(a, b, c), span_high(a, b, c, extent), a, b, c, extent),
        span_low(a, b, c) <= span_high(a, b, c, extent) <==> spans_screen(a, b, c, extent),
{
}

/// Whether the triangle has an area and its box overlaps the screen.
pub open spec fn raster_drawn(x0: int, y0: int, x1: int, y1: int, x2: int, y2: int, width: int, height: int) -> bool {
    &&& edge_denom(x0, y0, x1, y1, x2, y2) != 0
    &&& span_low(x0, x1, x2) <= span_high(x0, x1, x2, width)
    &&& span_low(y0, y1, y2) <= span_high(y0, y1, y2, height)
}

/// Whether every intermediate value of the triangle set-up fits an `i32`, in the order
/// the set-up computes them (the seeds only when the triangle is drawn).
pub open spec fn raster_fits(x0: int, y0: int, x1: int, y1: int, x2: int, y2: int, width: int, height: int) -> bool {
    let a = y1 - y2;
    let b = x0 - x2;
    let c = x2 - x1;
    let d = y0 - y2;
    let e = y2 - y0;
    let mx = span_low(x0, x1, x2) - x2;
    let my = span_low(y0, y1, y2) - y2;
    &&& fits_i32(a) && fits_i32(b) && fits_i32(a * b) && fits_i32(c) && fits_i32(d)
    &&& fits_i32(c * d) && fits_i32(a * b + c * d)
    &&& raster_drawn(x0, y0, x1, y1, x2, y2, width, height) ==> {
        &&& fits_i32(e) && fits_i32(mx) && fits_i32(my)
        &&& fits_i32(a * mx) && fits_i32(c * my) && fits_i32(a * mx + c * my)
        &&& fits_i32(e * mx) && fits_i32(b * my) && fits_i32(e * mx + b * my)
    }
}

/// The integer part of drawing one screen triangle: its clipped bounding box, the
/// denominator of its barycentric weights, how each weight numerator changes per column
/// and per row, and the weight numerators at the top-left corner of the box. The
/// caller divides the numerators by `denom`.
pub struct RasterSetup {
    pub min_x: i32,
    pub max_x: i32,
    pub min_y: i32,
    pub max_y: i32,
    pub denom: i32,
    pub w0_x_step: i32,
    pub w1_x_step: i32,
    pub w0_y_step: i32,
    pub w1_y_step: i32,
    pub w0_seed: i32,
    pub w1_seed: i32,
}

/// Sets up the triangle with screen corners (x0, y0), (x1, y1), (x2, y2) on a screen of
/// `width` by `height` cells. `None` when the triangle has no area or its box misses the
/// screen; otherwise the box clipped to the screen, the denominator, the steps and
/// the seeds.
pub fn raster_setup(x0: i32, y0: i32, x1: i32, y1: i32, x2: i32, y2: i32, width: u16, height: u16) -> (res:
    Option<RasterSetup>)
    requires
        raster_fits(x0 as int, y0 as int, x1 as int, y1 as int, x2 as int, y2 as int, width as int, height as int),
    ensures
        res is None <==> !raster_drawn(x0 as int, y0 as int, x1 as int, y1 as int, x2 as int, y2 as int, width as int, height as int),
        res is None <==> (edge_denom(x0 as int, y0 as int, x1 as int, y1 as int, x2 as int, y2 as int) == 0
            || !spans_screen(x0 as int, x1 as int, x2 as int, width as int)
            || !spans_screen(y0 as int, y1 as int, y2 as int, height as int)),
        res matches Some(s) ==> {
            &&& s.min_x == span_low(x0 as int, x1 as int, x2 as int)
            &&& s.max_x == span_high(x0 as int, x1 as int, x2 as int, width as int)
            &&& s.min_y == span_low(y0 as int, y1 as int, y2 as int)
            &&& s.max_y == span_high(y0 as int, y1 as int, y2 as int, height as int)
            &&& s.denom == edge_denom(x0 as int, y0 as int, x1 as int, y1 as int, x2 as int, y2 as int)
            &&& s.w0_x_step == y1 - y2
            &&& s.w1_x_step == y2 - y0
            &&& s.w0_y_step == x2 - x1
            &&& s.w1_y_step == x0 - x2
            &&& s.w0_seed == (y1 - y2) * (s.min_x - x2) + (x2 - x1) * (s.min_y - y2)
            &&& s.w1_seed == (y2 - y0) * (s.min_x - x2) + (x0 - x2) * (s.min_y - y2)
            &&& 0 <= s.min_x <= s.max_x < width
            &&& 0 <= s.min_y <= s.max_y < height
            &&& box_holds_corners(s.min_x as int, s.max_x as int, x0 as int, x1 as int, x2 as int, width as int)
            &&& box_holds_corners(s.min_y as int, s.max_y as int, y0 as int, y1 as int, y2 as int, height as int)
        },
{
    proof {
        lemma_span_is_corner_span(x0 as int, x1 as int, x2 as int, width as int);
        lemma_span_is_corner_span(y0 as int, y1 as int, y2 as int, height as int);
    }
    let denom = (y1 - y2) * (x0 - x2) + (x2 - x1) * (y0 - y2);
    if denom == 0 {
        return None;
    }
    let min_x = clamp_low(min_of3(x0, x1, x2));
    let max_x = clamp_high(max_of3(x0, x1, x2), width as i32 - 1);
    let min_y = clamp_low(min_of3(y0, y1, y2));
    let max_y = clamp_high(max_of3(y0, y1, y2), height as i32 - 1);
    if min_x > max_x || min_y > max_y {
        return None;
    }
    let w0_x_step = y1 - y2;
    let w1_x_step = y2 - y0;
    let w0_y_step = x2 - x1;
    let w1_y_step = x0 - x2;
    let w0_seed = (y1 - y2) * (min_x - x2) + (x2 - x1) * (min_y - y2);
    let w1_seed = (y2 - y0) * (min_x - x2) + (x0 - x2) * (min_y - y2);
    Some(
        RasterSetup {
            min_x,
            max_x,
            min_y,
            max_y,
            denom,
            w0_x_step,
            w1_x_step,
            w0_y_step,
            w1_y_step,
            w0_seed,
            w1_seed,
        },
    )
}

/// Whether [`raster_setup`] can set up these corners without an `i32` overflow.
pub fn raster_setup_fits(x0: i32, y0: i32, x1: i32, y1: i32, x2: i32, y2: i32, width: u16, height: u16) -> (ok: bool)
    ensures
        ok == raster_fits(x0 as int, y0 as int, x1 as int, y1 as int, x2 as int, y2 as int, width as int, height as int),
{
    let (x0, y0, x1, y1, x2, y2) = (x0 as i128, y0 as i128, x1 as i128, y1 as i128, x2 as i128, y2 as i128);
    let a = y1 - y2;
    let b = x0 - x2;
    let c = x2 - x1;
    let d = y0 - y2;
    let e = y2 - y0;
    let lo: i128 = i32::MIN as i128;
    let hi: i128 = i32::MAX as i128;
    proof {
        lemma_product_bound(a as int, b as int);
        lemma_product_bound(c as int, d as int);
    }
    let first = lo <= a && a <= hi && lo <= b && b <= hi && lo <= a * b && a * b <= hi && lo <= c
        && c <= hi && lo <= d && d <= hi && lo <= c * d && c * d <= hi && lo <= a * b + c * d && a
        * b + c * d <= hi;
    if !first {
        return false;
    }
    let mnx = if x0 <= x1 && x0 <= x2 { x0 } else if x1 <= x2 { x1 } else { x2 };
    let mxx = if x0 >= x1 && x0 >= x2 { x0 } else if x1 >= x2 { x1 } else { x2 };
    let mny = if y0 <= y1 && y0 <= y2 { y0 } else if y1 <= y2 { y1 } else { y2 };
    let mxy = if y0 >= y1 && y0 >= y2 { y0 } else if y1 >= y2 { y1 } else { y2 };
    let min_x = if mnx < 0 { 0 } else { mnx };
    let max_x = if mxx > width as i128 - 1 { width as i128 - 1 } else { mxx };
    let min_y = if mny < 0 { 0 } else { mny };
    let max_y = if mxy > height as i128 - 1 { height as i128 - 1 } else { mxy };
    let drawn = a * b + c * d != 0 && min_x <= max_x && min_y <= max_y;
    if !drawn {
        return true;
    }
    let mx = min_x - x2;
    let my = min_y - y2;
    proof {
        lemma_product_bound(a as int, mx as int);
        lemma_product_bound(c as int, my as int);
        lemma_product_bound(e as int, mx as int);
        lemma_product_bound(b as int, my as int);
    }
    lo <= e && e <= hi && lo <= mx && mx <= hi && lo <= my && my <= hi && lo <= a * mx && a * mx
        <= hi && lo <= c * my && c * my <= hi && lo <= a * mx + c * my && a * mx + c * my <= hi
        && lo <= e * mx && e * mx <= hi && lo <= b * my && b * my <= hi && lo <= e * mx + b * my
        && e * mx + b * my <= hi
}

proof fn lemma_product_bound(a: int, b: int)
    requires
        -0x4_0000_0000 <= a <= 0x4_0000_0000,
        -0x4_0000_0000 <= b <= 0x4_0000_0000,
    ensures
        -0x10_0000_0000_0000_0000 <= a * b <= 0x10_0000_0000_0000_0000,
{
    assert(-0x10_0000_0000_0000_0000 <= a * b <= 0x10_0000_0000_0000_0000) by (nonlinear_arith)
        requires
            -0x4_0000_0000 <= a <= 0x4_0000_0000,
            -0x4_0000_0000 <= b <= 0x4_0000_0000,
    ;
}

fn min_of3(a: i32, b: i32, c: i32) -> (m: i32)
    ensures
        m == min3(a as int, b as int, c as int),
{
    if a <= b && a <= c {
        a
    } else if b <= c {
        b
    } else {
        c
    }
}

fn max_of3(a: i32, b: i32, c: i32) -> (m: i32)
    ensures
        m == max3(a as int, b as int, c as int),
{
    if a >= b && a >= c {
        a
    } else if b >= c {
        b
    } else {
        c
    }
}

fn clamp_low(v: i32) -> (m: i32)
    ensures
        m == (if v < 0 { 0 } else { v as int }),
{
    if v < 0 {
        0
    } else {
        v
    }
}

fn clamp_high(v: i32, top: i32) -> (m: i32)
    ensures
        m == (if v > top { top as int } else { v as int }),
{
    if v > top {
        top
    } else {
        v
    }
}


} // verus!
