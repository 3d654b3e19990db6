//! Software rendering primitives: a [`Canvas`] over a `0x00RRGGBB` pixel
//! buffer, with rectangle fills/outlines, alpha blending, lines, ellipses and
//! text drawn from the Noto Sans Mono bitmap font.
//!
//! Pixels are stored row by row: pixel `(x, y)` is `pixels[y * width + x]`.
//! The contracts describe each operation's result as a whole new buffer.

use vstd::prelude::*;
use vstd::string::*;
use noto_sans_mono_bitmap::{get_raster, get_raster_width, FontWeight, RasterHeight};
use vstd::arithmetic::div_mod::{lemma_fundamental_div_mod, lemma_fundamental_div_mod_converse, lemma_mod_pos_bound};

verus! {

/// A pixel as `0x00RRGGBB`.
pub type Color = u32;

/// Pack three colour channels into a `0x00RRGGBB` pixel.
pub fn rgb(r: u8, g: u8, b: u8) -> (c: Color)
    ensures
        c == r * 65536 + g * 256 + b,
{
    assert(((r as u32) << 16) | ((g as u32) << 8) | (b as u32) == r * 65536 + g * 256 + b) by (bit_vector);
    ((r as u32) << 16) | ((g as u32) << 8) | b as u32
}

/// A rectangular pixel buffer.
pub struct Canvas {
    pub pixels: Vec<Color>,
    pub width: usize,
    pub height: usize,
}

/// Row of buffer index `i` in a canvas `w` pixels wide.
pub open spec fn row_of(i: int, w: int) -> int {
    i / w
}

/// Column of buffer index `i` in a canvas `w` pixels wide.
pub open spec fn col_of(i: int, w: int) -> int {
    i % w
}

/// Index `i` splits into its row and column.
pub proof fn lemma_split(i: int, w: int)
    requires
        0 <= i,
        0 < w,
    ensures
        i == row_of(i, w) * w + col_of(i, w),
        0 <= col_of(i, w) < w,
        0 <= row_of(i, w),
{
    lemma_fundamental_div_mod(i, w);
    lemma_mod_pos_bound(i, w);
    assert(0 <= row_of(i, w) && i == row_of(i, w) * w + col_of(i, w)) by (nonlinear_arith)
        requires i == w * row_of(i, w) + col_of(i, w), 0 <= col_of(i, w) < w, 0 <= i, 0 < w;
}

/// The index of `(x, y)` has row `y` and column `x`.
pub proof fn lemma_index(x: int, y: int, w: int)
    requires
        0 <= x < w,
        0 <= y,
    ensures
        row_of(y * w + x, w) == y,
        col_of(y * w + x, w) == x,
{
    lemma_fundamental_div_mod_converse(y * w + x, w, y, x);
}

/// Channel mix for alpha blending: `(s * a + d * (255 - a)) / 255`.
pub open spec fn mix(s: u32, d: u32, a: u8) -> u32 {
    ((s * a + d * (255 - a)) / 255) as u32
}

/// `color` blended with opacity `alpha` over `dst`, channel by channel.
pub open spec fn blend_px(color: u32, dst: u32, alpha: u8) -> u32 {
    let r = mix((color >> 16u32) & 0xFF, (dst >> 16u32) & 0xFF, alpha);
    let g = mix((color >> 8u32) & 0xFF, (dst >> 8u32) & 0xFF, alpha);
    let b = mix(color & 0xFF, dst & 0xFF, alpha);
    (r << 16u32) | (g << 8u32) | b
}

/// A blended channel lies between the two channels it mixes, and mixing
/// `s` over `d` at opacity `a` is mixing `d` over `s` at `255 - a`.
pub proof fn lemma_mix_between(s: u32, d: u32, a: u8)
    requires
        s <= 255,
        d <= 255,
    ensures
        (if s <= d { s } else { d }) <= mix(s, d, a) <= (if s <= d { d } else { s }),
        mix(s, d, a) == mix(d, s, (255 - a) as u8),
{
    let n = s * a + d * (255 - a);
    assert((if s <= d { s } else { d }) * 255 <= n <= (if s <= d { d } else { s }) * 255) by (nonlinear_arith)
        requires n == s * a + d * (255 - a), a <= 255;
    assert((if s <= d { s } else { d }) <= n / 255 <= (if s <= d { d } else { s })) by (nonlinear_arith)
        requires (if s <= d { s } else { d }) * 255 <= n <= (if s <= d { d } else { s }) * 255, n >= 0;
    assert(d * ((255 - a) as u8) + s * (255 - ((255 - a) as u8)) == n) by (nonlinear_arith)
        requires n == s * a + d * (255 - a), a <= 255;
}

/// Blending at full opacity paints the colour; at zero opacity it keeps the
/// pixel (both without their top byte).
pub proof fn lemma_blend_extremes(color: u32, dst: u32)
    ensures
        blend_px(color, dst, 255) == color & 0xFFFFFF,
        blend_px(color, dst, 0) == dst & 0xFFFFFF,
{
    let (sr, sg, sb) = ((color >> 16u32) & 0xFF, (color >> 8u32) & 0xFF, color & 0xFF);
    let (dr, dg, db) = ((dst >> 16u32) & 0xFF, (dst >> 8u32) & 0xFF, dst & 0xFF);
    assert(sr <= 255 && sg <= 255 && sb <= 255 && dr <= 255 && dg <= 255 && db <= 255) by (bit_vector)
        requires sr == (color >> 16u32) & 0xFF, sg == (color >> 8u32) & 0xFF, sb == color & 0xFF,
            dr == (dst >> 16u32) & 0xFF, dg == (dst >> 8u32) & 0xFF, db == dst & 0xFF;
    assert forall|s: u32, d: u32| s <= 255 && d <= 255 implies #[trigger] mix(s, d, 255) == s && mix(s, d, 0) == d by {
        assert((s * 255 + d * 0) / 255 == s as int) by (nonlinear_arith) requires s <= 255;
        assert((s * 0 + d * 255) / 255 == d as int) by (nonlinear_arith) requires d <= 255;
    }
    assert(mix(sr, dr, 255) == sr && mix(sg, dg, 255) == sg && mix(sb, db, 255) == sb);
    assert(mix(sr, dr, 0) == dr && mix(sg, dg, 0) == dg && mix(sb, db, 0) == db);
    assert((((color >> 16u32) & 0xFF) << 16u32) | (((color >> 8u32) & 0xFF) << 8u32) | (color & 0xFF) == color & 0xFFFFFF)
        by (bit_vector);
    assert((((dst >> 16u32) & 0xFF) << 16u32) | (((dst >> 8u32) & 0xFF) << 8u32) | (dst & 0xFF) == dst & 0xFFFFFF)
        by (bit_vector);
}

/// The buffer `p` of a `w`-wide canvas with the pixels of columns
/// `x0..x1` and rows `y0..y1` set to `color`.
pub open spec fn filled(p: Seq<u32>, w: int, x0: int, y0: int, x1: int, y1: int, color: u32) -> Seq<u32> {
    Seq::new(p.len(), |i: int|
        if y0 <= row_of(i, w) < y1 && x0 <= col_of(i, w) < x1 { color } else { p[i] })
}

/// Clamp `v` to `0 ..= hi`.
pub open spec fn clamp0(v: int, hi: int) -> int {
    if v < 0 { 0 } else if v > hi { hi } else { v }
}

/// The buffer `p` of a `cw` by `ch` canvas after `fill_rect(x, y, w, h,
/// color)`: the rectangle clipped to the canvas.
pub open spec fn rect_filled(p: Seq<u32>, cw: int, ch: int, x: int, y: int, w: int, h: int, color: u32) -> Seq<u32> {
    let x0 = clamp0(x, cw);
    let y0 = clamp0(y, ch);
    let x1 = clamp0(x + w, cw);
    let y1 = clamp0(y + h, ch);
    filled(p, cw, x0, y0, x1, y1, color)
}

impl Canvas {
    /// The buffer holds every pixel.
    pub open spec fn wf(&self) -> bool {
        self.width * self.height <= self.pixels@.len()
    }

    /// A canvas over `pixels` (which must hold `width * height` pixels).
    pub fn new(pixels: Vec<Color>, width: usize, height: usize) -> (c: Canvas)
        requires
            width * height <= pixels@.len(),
        ensures
            c.wf(),
            c.pixels@ == pixels@,
            c.width == width,
            c.height == height,
    {
        Canvas { pixels, width, height }
    }

    /// Set pixel `(x, y)`; off-canvas writes are ignored.
    pub fn put(&mut self, x: usize, y: usize, color: Color)
        requires
            old(self).wf(),
        ensures
            final(self).wf(),
            final(self).width == old(self).width,
            final(self).height == old(self).height,
            final(self).pixels@.len() == old(self).pixels@.len(),
            x < old(self).width && y < old(self).height ==>
                final(self).pixels@ == old(self).pixels@.update(y * old(self).width + x, color),
            !(x < old(self).width && y < old(self).height) ==> final(self).pixels@ == old(self).pixels@,
    {
        let _n = self.pixels.len();
        if x < self.width && y < self.height {
            proof {
                assert(y * self.width + x < self.width * self.height) by (nonlinear_arith)
                    requires x < self.width, y < self.height;
            }
            let i = y * self.width + x;
            self.pixels.set(i, color);
        }
    }

    /// Alpha-blend `color` over pixel `(x, y)` (`alpha` 0..=255); off-canvas
    /// pixels are ignored.
    pub fn blend(&mut self, x: usize, y: usize, color: Color, alpha: u8)
        requires
            old(self).wf(),
        ensures
            final(self).wf(),
            final(self).width == old(self).width,
            final(self).height == old(self).height,
            final(self).pixels@.len() == old(self).pixels@.len(),
            x < old(self).width && y < old(self).height ==> final(self).pixels@ == old(self).pixels@.update(
                y * old(self).width + x, blend_px(color, old(self).pixels@[y * old(self).width + x], alpha)),
            !(x < old(self).width && y < old(self).height) ==> final(self).pixels@ == old(self).pixels@,
    {
        let _n = self.pixels.len();
        if x >= self.width || y >= self.height {
            return;
        }
        proof {
            assert(y * self.width + x < self.width * self.height) by (nonlinear_arith)
                requires x < self.width, y < self.height;
        }
        let idx = y * self.width + x;
        let dst = self.pixels[idx];
        let a = alpha as u32;
        let sr = (color >> 16) & 0xFF;
        let dr = (dst >> 16) & 0xFF;
        let sg = (color >> 8) & 0xFF;
        let dg = (dst >> 8) & 0xFF;
        let sb = color & 0xFF;
        let db = dst & 0xFF;
        assert(sr <= 255 && dr <= 255 && sg <= 255 && dg <= 255 && sb <= 255 && db <= 255) by (bit_vector)
            requires sr == (color >> 16) & 0xFF, dr == (dst >> 16) & 0xFF, sg == (color >> 8) & 0xFF,
                dg == (dst >> 8) & 0xFF, sb == color & 0xFF, db == dst & 0xFF;
        assert(sr * a <= 255 * 255 && dr * (255 - a) <= 255 * 255) by (nonlinear_arith)
            requires sr <= 255, dr <= 255, a <= 255;
        assert(sg * a <= 255 * 255 && dg * (255 - a) <= 255 * 255) by (nonlinear_arith)
            requires sg <= 255, dg <= 255, a <= 255;
        assert(sb * a <= 255 * 255 && db * (255 - a) <= 255 * 255) by (nonlinear_arith)
            requires sb <= 255, db <= 255, a <= 255;
        let r = (sr * a + dr * (255 - a)) / 255;
        let g = (sg * a + dg * (255 - a)) / 255;
        let b = (sb * a + db * (255 - a)) / 255;
        self.pixels.set(idx, (r << 16) | (g << 8) | b);
    }

    /// Fill the rectangle `(x, y, w, h)`, clipped to the canvas.
    pub fn fill_rect(&mut self, x: i32, y: i32, w: i32, h: i32, color: Color)
        requires
            old(self).wf(),
            i32::MIN <= x + w <= i32::MAX,
            i32::MIN <= y + h <= i32::MAX,
        ensures
            final(self).wf(),
            final(self).width == old(self).width,
            final(self).height == old(self).height,
            final(self).pixels@ == rect_filled(old(self).pixels@, old(self).width as int, old(self).height as int, x as int, y as int, w as int, h as int, color),
            final(self).pixels@.len() == old(self).pixels@.len(),
    {
        let ghost p0 = self.pixels@;
        let _n = self.pixels.len();
        let wd = self.width;
        let hh = self.height;
        let x0: usize = if x < 0 { 0 } else if x as usize > wd { wd } else { x as usize };
        let y0: usize = if y < 0 { 0 } else if y as usize > self.height { self.height } else { y as usize };
        let xe = x + w;
        let ye = y + h;
        let x1: usize = if xe < 0 { 0 } else if xe as usize > wd { wd } else { xe as usize };
        let y1: usize = if ye < 0 { 0 } else if ye as usize > self.height { self.height } else { ye as usize };
        let mut py = y0;
        while py < y1
            invariant
                self.wf(),
                self.width == wd,
                self.height == hh,
                p0.len() == self.pixels@.len(),
                p0.len() <= usize::MAX,
                x0 <= wd, x1 <= wd, y0 <= py, y1 <= self.height,
                py <= y1 || py == y0,
                self.pixels@ == filled(p0, wd as int, x0 as int, y0 as int, x1 as int, py as int, color),
            decreases y1 - py,
        {
            proof {
                assert(py * wd + wd <= wd * self.height) by (nonlinear_arith)
                    requires py < y1, y1 <= self.height;
            }
            let row = py * wd;
            let mut px = x0;
            while px < x1
                invariant
                    self.wf(),
                    self.width == wd,
                    self.height == hh,
                    p0.len() == self.pixels@.len(),
                    p0.len() <= usize::MAX,
                    x0 <= px, x1 <= wd, y0 <= py < y1, y1 <= self.height,
                    px <= x1 || px == x0,
                    row == py * wd,
                    row + wd <= wd * self.height,
                    self.pixels@ == Seq::new(p0.len(), |i: int|
                        if (y0 <= row_of(i, wd as int) < py && x0 <= col_of(i, wd as int) < x1)
                            || (row_of(i, wd as int) == py && x0 <= col_of(i, wd as int) < px) { color } else { p0[i] }),
                decreases x1 - px,
            {
                let ghost before = self.pixels@;
                self.pixels.set(row + px, color);
                proof {
                    let k = (row + px) as int;
                    lemma_index(px as int, py as int, wd as int);
                    assert forall|i: int| 0 <= i < p0.len() implies #[trigger] self.pixels@[i] == (
                        if (y0 <= row_of(i, wd as int) < py && x0 <= col_of(i, wd as int) < x1)
                            || (row_of(i, wd as int) == py && x0 <= col_of(i, wd as int) < px + 1) { color } else { p0[i] }) by {
                        if i != k {
                            lemma_split(i, wd as int);
                            if row_of(i, wd as int) == py && col_of(i, wd as int) == px {
                                assert(i == k);
                            }
                        }
                    }
                    assert(self.pixels@ =~= Seq::new(p0.len(), |i: int|
                        if (y0 <= row_of(i, wd as int) < py && x0 <= col_of(i, wd as int) < x1)
                            || (row_of(i, wd as int) == py && x0 <= col_of(i, wd as int) < px + 1) { color } else { p0[i] }));
                }
                px = px + 1;
            }
            proof {
                assert(self.pixels@ =~= filled(p0, wd as int, x0 as int, y0 as int, x1 as int, py + 1, color));
            }
            py = py + 1;
        }
        proof {
            assert(self.pixels@ =~= filled(p0, wd as int, x0 as int, y0 as int, x1 as int, y1 as int, color));
        }
    }
}

/// The gradient colour of row `y` of `h` rows, from `top` to `bottom`.
pub open spec fn grad_color(top: u32, bottom: u32, y: int, h: int) -> u32 {
    let t = ((y * 255) / h) as u32;
    let r = (((top >> 16u32) & 0xFF) * (255 - t) + ((bottom >> 16u32) & 0xFF) * t) / 255;
    let g = (((top >> 8u32) & 0xFF) * (255 - t) + ((bottom >> 8u32) & 0xFF) * t) / 255;
    let b = ((top & 0xFF) * (255 - t) + (bottom & 0xFF) * t) / 255;
    ((r as u32) << 16u32) | ((g as u32) << 8u32) | (b as u32)
}

/// The largest `r` with `r * r <= n`.
pub open spec fn is_isqrt(n: int, r: int) -> bool {
    0 <= r && r * r <= n && n < (r + 1) * (r + 1)
}

/// Integer square root by Newton's method.
pub fn isqrt(n: u64) -> (r: u64)
    ensures
        is_isqrt(n as int, r as int),
{
    if n < 2 {
        assert(is_isqrt(n as int, n as int)) by (nonlinear_arith)
            requires n < 2;
        return n;
    }
    let ghost s: int = choose|s: int| #[trigger] is_isqrt(n as int, s);
    proof {
        lemma_isqrt_exists(n as int);
    }
    let mut x = n;
    let mut y = (x / 2) + (x % 2);
    proof {
        assert(y == (x + 1) / 2);
        lemma_newton_bound(n as int, x as int, s);
        assert(x >= s) by (nonlinear_arith)
            requires is_isqrt(n as int, s), x == n, n >= 2;
        assert(s >= 1) by (nonlinear_arith)
            requires is_isqrt(n as int, s), n >= 2;
    }
    while y < x
        invariant
            n >= 2,
            is_isqrt(n as int, s),
            s >= 1,
            x >= s,
            y >= s,
            y == (x + n / x) / 2,
            x >= 1,
        decreases x,
    {
        x = y;
        proof {
            lemma_newton_bound(n as int, x as int, s);
        }
        y = (x / 2) + ((n / x) / 2) + ((x % 2 + (n / x) % 2) / 2);
        proof {
            assert(y == (x + n / x) / 2) by (nonlinear_arith)
                requires y == (x / 2) + ((n / x) / 2) + ((x % 2 + (n / x) % 2) / 2), x >= 1;
        }
    }
    proof {
        // y >= x: (x + n/x)/2 >= x, so n/x >= x and x * x <= n; with x >= s, x is the root.
        assert(x * x <= n) by (nonlinear_arith)
            requires y == (x + n / x) / 2, y >= x, x >= 1;
        assert(x == s) by (nonlinear_arith)
            requires is_isqrt(n as int, s), x >= s, x * x <= n;
    }
    x
}

/// Every natural number has an integer square root.
proof fn lemma_isqrt_exists(n: int)
    requires
        n >= 0,
    ensures
        exists|s: int| #[trigger] is_isqrt(n, s),
    decreases n,
{
    if n == 0 {
        assert(is_isqrt(0, 0));
    } else {
        lemma_isqrt_exists(n - 1);
        let s = choose|s: int| #[trigger] is_isqrt(n - 1, s);
        if n < (s + 1) * (s + 1) {
            assert(is_isqrt(n, s));
        } else {
            assert(is_isqrt(n, s + 1)) by (nonlinear_arith)
                requires is_isqrt(n - 1, s), n >= (s + 1) * (s + 1);
        }
    }
}

/// A Newton step from any positive guess never falls below the root.
proof fn lemma_newton_bound(n: int, x: int, s: int)
    requires
        n >= 1,
        x >= 1,
        is_isqrt(n, s),
    ensures
        (x + n / x) / 2 >= s,
{
    let q = n / x;
    lemma_fundamental_div_mod(n, x);
    lemma_mod_pos_bound(n, x);
    assert(x * (q + 1) > n) by (nonlinear_arith)
        requires n == x * q + n % x, n % x < x, x >= 1;
    assert((x - s) * (x - s) >= 0) by (nonlinear_arith);
    assert(x + q >= 2 * s) by (nonlinear_arith)
        requires x * (q + 1) > n, n >= s * s, (x - s) * (x - s) >= 0, x >= 1, s >= 0;
}

impl Canvas {
    /// A vertical gradient fill from `top` to `bottom`.
    pub fn fill_gradient(&mut self, top: Color, bottom: Color)
        requires
            old(self).wf(),
            old(self).height <= 16843010,
        ensures
            final(self).wf(),
            final(self).width == old(self).width,
            final(self).height == old(self).height,
            final(self).pixels@.len() == old(self).pixels@.len(),
            final(self).pixels@ == Seq::new(old(self).pixels@.len(), |i: int|
                if i < old(self).width * old(self).height {
                    grad_color(top, bottom, row_of(i, old(self).width as int), if old(self).height == 0 { 1 } else { old(self).height as int })
                } else {
                    old(self).pixels@[i]
                }),
    {
        let ghost p0 = self.pixels@;
        let _n = self.pixels.len();
        let wd = self.width;
        let ht = self.height;
        let h: usize = if ht == 0 { 1 } else { ht };
        let mut y: usize = 0;
        while y < ht
            invariant
                self.wf(),
                self.width == wd,
                self.height == ht,
                ht <= 16843010,
                h == if ht == 0 { 1 } else { ht },
                p0.len() == self.pixels@.len(),
                p0.len() <= usize::MAX,
                y <= ht,
                self.pixels@ == Seq::new(p0.len(), |i: int|
                    if i < y * wd { grad_color(top, bottom, row_of(i, wd as int), h as int) } else { p0[i] }),
            decreases ht - y,
        {
            let t = (y as u32) * 255 / (h as u32);
            assert(t <= 255) by (nonlinear_arith)
                requires t == (y * 255) / (h as int), y < h;
            let tr = (top >> 16) & 0xFF;
            let br = (bottom >> 16) & 0xFF;
            let tg = (top >> 8) & 0xFF;
            let bg = (bottom >> 8) & 0xFF;
            let tb = top & 0xFF;
            let bb = bottom & 0xFF;
            assert(tr <= 255 && br <= 255 && tg <= 255 && bg <= 255 && tb <= 255 && bb <= 255) by (bit_vector)
                requires tr == (top >> 16) & 0xFF, br == (bottom >> 16) & 0xFF, tg == (top >> 8) & 0xFF,
                    bg == (bottom >> 8) & 0xFF, tb == top & 0xFF, bb == bottom & 0xFF;
            assert(tr * (255 - t) + br * t <= 255 * 255 * 2) by (nonlinear_arith)
                requires tr <= 255, br <= 255, t <= 255;
            assert(tg * (255 - t) + bg * t <= 255 * 255 * 2) by (nonlinear_arith)
                requires tg <= 255, bg <= 255, t <= 255;
            assert(tb * (255 - t) + bb * t <= 255 * 255 * 2) by (nonlinear_arith)
                requires tb <= 255, bb <= 255, t <= 255;
            let r = (tr * (255 - t) + br * t) / 255;
            let g = (tg * (255 - t) + bg * t) / 255;
            let b = (tb * (255 - t) + bb * t) / 255;
            let color = (r << 16) | (g << 8) | b;
            assert(color == grad_color(top, bottom, y as int, h as int));
            proof {
                assert(y * wd + wd <= wd * ht) by (nonlinear_arith)
                    requires y < ht;
            }
            let row = y * wd;
            let mut x: usize = 0;
            while x < wd
                invariant
                    self.wf(),
                    self.width == wd,
                    self.height == ht,
                    p0.len() == self.pixels@.len(),
                    p0.len() <= usize::MAX,
                    y < ht,
                    row == y * wd,
                    row + wd <= wd * ht,
                    x <= wd,
                    color == grad_color(top, bottom, y as int, h as int),
                    self.pixels@ == Seq::new(p0.len(), |i: int|
                        if i < row { grad_color(top, bottom, row_of(i, wd as int), h as int) }
                        else if i < row + x { color } else { p0[i] }),
                decreases wd - x,
            {
                self.pixels.set(row + x, color);
                proof {
                    lemma_index(x as int, y as int, wd as int);
                    assert(self.pixels@ =~= Seq::new(p0.len(), |i: int|
                        if i < row { grad_color(top, bottom, row_of(i, wd as int), h as int) }
                        else if i < row + x + 1 { color } else { p0[i] }));
                }
                x = x + 1;
            }
            proof {
                assert forall|i: int| row <= i < row + wd implies row_of(i, wd as int) == y by {
                    lemma_index(i - row, y as int, wd as int);
                }
                assert((y + 1) * wd == y * wd + wd) by (nonlinear_arith);
                assert(self.pixels@ =~= Seq::new(p0.len(), |i: int|
                    if i < (y + 1) * wd { grad_color(top, bottom, row_of(i, wd as int), h as int) } else { p0[i] }));
            }
            y = y + 1;
        }
        assert(ht * wd == wd * ht) by (nonlinear_arith);
        assert(self.pixels@ =~= Seq::new(p0.len(), |i: int|
            if i < wd * ht { grad_color(top, bottom, row_of(i, wd as int), h as int) } else { p0[i] }));
    }

    /// The outline of the rectangle `(x, y, w, h)`, `thickness` pixels wide:
    /// top, bottom, left and right bands in that order.
    pub fn rect_outline(&mut self, x: i32, y: i32, w: i32, h: i32, thickness: i32, color: Color)
        requires
            old(self).wf(),
            i32::MIN <= x + w <= i32::MAX,
            i32::MIN <= y + h <= i32::MAX,
            i32::MIN <= x + thickness <= i32::MAX,
            i32::MIN <= y + thickness <= i32::MAX,
            i32::MIN <= x + w - thickness <= i32::MAX,
            i32::MIN <= y + h - thickness <= i32::MAX,
        ensures
            final(self).wf(),
            final(self).width == old(self).width,
            final(self).height == old(self).height,
            final(self).pixels@.len() == old(self).pixels@.len(),
            final(self).pixels@ == {
                let cw = old(self).width as int;
                let ch = old(self).height as int;
                let p1 = rect_filled(old(self).pixels@, cw, ch, x as int, y as int, w as int, thickness as int, color);
                let p2 = rect_filled(p1, cw, ch, x as int, y + h - thickness, w as int, thickness as int, color);
                let p3 = rect_filled(p2, cw, ch, x as int, y as int, thickness as int, h as int, color);
                rect_filled(p3, cw, ch, x + w - thickness, y as int, thickness as int, h as int, color)
            },
    {
        self.fill_rect(x, y, w, thickness, color);
        self.fill_rect(x, y + h - thickness, w, thickness, color);
        self.fill_rect(x, y, thickness, h, color);
        self.fill_rect(x + w - thickness, y, thickness, h, color);
    }
}

/// The root found by [`isqrt`] is the only one.
pub proof fn lemma_isqrt_unique(n: int, r1: int, r2: int)
    requires
        is_isqrt(n, r1),
        is_isqrt(n, r2),
    ensures
        r1 == r2,
{
    if r1 < r2 {
        assert((r1 + 1) * (r1 + 1) <= r2 * r2) by (nonlinear_arith)
            requires r1 + 1 <= r2, r1 >= 0;
    } else if r2 < r1 {
        assert((r2 + 1) * (r2 + 1) <= r1 * r1) by (nonlinear_arith)
            requires r2 + 1 <= r1, r2 >= 0;
    }
}

/// The integer square root of `n`.
pub open spec fn isqrt_of(n: int) -> int {
    choose|r: int| #[trigger] is_isqrt(n, r)
}

/// The buffer `p` of a `cw` by `ch` canvas after `put(x, y, color)`.
pub open spec fn put_spec(p: Seq<u32>, cw: int, ch: int, x: int, y: int, color: u32) -> Seq<u32> {
    if 0 <= x < cw && 0 <= y < ch { p.update(y * cw + x, color) } else { p }
}

/// The buffer `p` of a `cw` by `ch` canvas after `blend(x, y, color, alpha)`.
pub open spec fn blend_spec(p: Seq<u32>, cw: int, ch: int, x: int, y: int, color: u32, alpha: u8) -> Seq<u32> {
    if 0 <= x < cw && 0 <= y < ch {
        p.update(y * cw + x, blend_px(color, p[y * cw + x], alpha))
    } else {
        p
    }
}

/// The buffer `p` of a `cw` by `ch` canvas after the first `k` rows (from
/// the top) of the ellipse in the box `(x, y, w, h)`.
pub open spec fn ellipse_rows(p: Seq<u32>, cw: int, ch: int, x: int, y: int, w: int, h: int, color: u32, fill: bool, k: nat) -> Seq<u32>
    decreases k,
{
    if k == 0 {
        p
    } else {
        let q = ellipse_rows(p, cw, ch, x, y, w, h, color, fill, (k - 1) as nat);
        let a = w / 2;
        let b = h / 2;
        let dy = -b + (k - 1);
        let dx = isqrt_of((a * a * (b * b - dy * dy)) / (b * b));
        let cx = x + a;
        let py = y + b + dy;
        if fill {
            rect_filled(q, cw, ch, cx - dx, py, 2 * dx + 1, 1, color)
        } else if py >= 0 {
            let q1 = if cx - dx >= 0 { put_spec(q, cw, ch, cx - dx, py, color) } else { q };
            if cx + dx >= 0 { put_spec(q1, cw, ch, cx + dx, py, color) } else { q1 }
        } else {
            q
        }
    }
}

impl Canvas {
    /// Ellipse in the bounding box `(x, y, w, h)`, filled or outlined: for
    /// each row `dy` from `-h/2` to `h/2` the half-width is the integer
    /// square root of `a^2 (b^2 - dy^2) / b^2`, with `a = w/2`, `b = h/2`.
    pub fn ellipse(&mut self, x: i32, y: i32, w: i32, h: i32, color: Color, fill: bool)
        requires
            old(self).wf(),
            x + w < i32::MAX,
            y + h < i32::MAX,
            (w / 2) * (w / 2) * ((h / 2) * (h / 2)) <= i64::MAX,
        ensures
            final(self).wf(),
            final(self).width == old(self).width,
            final(self).height == old(self).height,
            final(self).pixels@.len() == old(self).pixels@.len(),
            w <= 1 || h <= 1 ==> final(self).pixels@ == old(self).pixels@,
            w > 1 && h > 1 ==> final(self).pixels@ == ellipse_rows(old(self).pixels@, old(self).width as int, old(self).height as int, x as int, y as int,
                w as int, h as int, color, fill, (2 * (h / 2) + 1) as nat),
    {
        if w <= 1 || h <= 1 {
            return;
        }
        let ghost c0 = *self;
        let a = w / 2;
        let b = h / 2;
        let cx = x + a;
        let cy = y + b;
        assert((a as int) * (a as int) <= 0x1000_0000_0000_0000 && (b as int) * (b as int) <= 0x1000_0000_0000_0000) by (nonlinear_arith)
            requires 0 <= a <= 0x4000_0000, 0 <= b <= 0x4000_0000;
        let a2 = (a as i64) * (a as i64);
        let b2 = (b as i64) * (b as i64);
        assert(a2 * b2 <= i64::MAX);
        assert(b2 >= 1) by (nonlinear_arith)
            requires b2 == b * b, b >= 1;
        let mut dy = -b;
        while dy <= b
            invariant
                self.wf(),
                self.width == c0.width,
                self.height == c0.height,
                self.pixels@.len() == c0.pixels@.len(),
                c0.wf(),
                w > 1 && h > 1,
                a == w / 2,
                b == h / 2,
                a >= 1 && b >= 1,
                cx == x + a,
                cy == y + b,
                a2 == a * a,
                b2 == b * b,
                b2 >= 1,
                a2 * b2 <= i64::MAX,
                x + w < i32::MAX,
                y + h < i32::MAX,
                -b <= dy <= b + 1,
                self.pixels@ == ellipse_rows(c0.pixels@, c0.width as int, c0.height as int, x as int, y as int, w as int, h as int, color, fill, (dy + b) as nat),
            decreases b + 1 - dy,
        {
            assert(0 <= (dy as int) * (dy as int) <= (b as int) * (b as int)) by (nonlinear_arith)
                requires -b <= dy <= b;
            let d2 = (dy as i64) * (dy as i64);
            assert(0 <= a2 * (b2 - d2) <= a2 * b2) by (nonlinear_arith)
                requires 0 <= d2 <= b2, a2 >= 0;
            let num = a2 * (b2 - d2);
            let q = (num / b2) as u64;
            assert(q <= a2) by (nonlinear_arith)
                requires q == num / b2, num <= a2 * b2, b2 >= 1, num >= 0;
            let r = isqrt(q);
            proof {
                assert(r <= a) by (nonlinear_arith)
                    requires r * r <= q, q <= a2, a2 == a * a, a >= 1, r >= 0;
                lemma_isqrt_unique(q as int, r as int, isqrt_of(q as int));
            }
            let dx = r as i32;
            let py = cy + dy;
            if fill {
                self.fill_rect(cx - dx, py, 2 * dx + 1, 1, color);
            } else if py >= 0 {
                if cx - dx >= 0 {
                    self.put((cx - dx) as usize, py as usize, color);
                }
                if cx + dx >= 0 {
                    self.put((cx + dx) as usize, py as usize, color);
                }
            }
            dy = dy + 1;
        }
    }
}

/// The pixels of glyph `c` in the regular-weight, 16-pixel-high Noto Sans
/// Mono raster: 7 columns by 16 rows of intensities, row by row.
pub uninterp spec fn glyph_pixels(c: char) -> Seq<u8>;

/// `noto_sans_mono_bitmap::get_raster(c, FontWeight::Regular,
/// RasterHeight::Size16)`, reduced to the glyph's pixels and width. With
/// the crate's default features it knows exactly the characters `' '` to
/// `'~'`; every glyph is 7 wide and 16 high (112 bytes). The intensities
/// themselves are named by [`glyph_pixels`], not stated.
#[verifier::external_body]
fn raster(c: char) -> (r: Option<(&'static [u8], usize)>)
    ensures
        r is Some <==> (0x20 <= c as u32 <= 0x7e),
        r is Some ==> { let (px, w) = r->0; px@ == glyph_pixels(c) && px@.len() == 112 && w == 7 },
{
    match get_raster(c, FontWeight::Regular, RasterHeight::Size16) {
        Some(g) => Some((g.pixels(), g.width())),
        None => None,
    }
}

/// `noto_sans_mono_bitmap::get_raster_width(FontWeight::Regular,
/// RasterHeight::Size16)`: the advance of every glyph, 7 pixels in this
/// version of the crate.
#[verifier::external_body]
pub fn glyph_width() -> (w: usize)
    ensures
        w == 7,
{
    get_raster_width(FontWeight::Regular, RasterHeight::Size16)
}

/// `noto_sans_mono_bitmap::RasterHeight::Size16.val()`: the raster height,
/// 16 pixels.
#[verifier::external_body]
pub fn glyph_height() -> (h: usize)
    ensures
        h == 16,
{
    RasterHeight::Size16.val()
}

/// The glyph drawn for `c`: its own, or `'?'` when the font lacks it.
pub open spec fn glyph_for(c: char) -> Seq<u8> {
    if 0x20 <= c as u32 <= 0x7e { glyph_pixels(c) } else { glyph_pixels('?') }
}

/// The raster of the glyph drawn for `c` (see [`glyph_for`]) and its width.
pub fn glyph_raster(c: char) -> (r: (&'static [u8], usize))
    ensures
        r.0@ == glyph_for(c),
        r.0@.len() == 112,
        r.1 == 7,
{
    match raster(c) {
        Some(g) => g,
        None => raster('?').unwrap(),
    }
}

/// The buffer `p` of a `cw` by `ch` canvas after blending the first `k`
/// glyph pixels (row by row) of glyph `g` at `(x, y)`; zero intensities and
/// negative positions are skipped.
pub open spec fn glyph_drawn(p: Seq<u32>, cw: int, ch: int, x: int, y: int, g: Seq<u8>, color: u32, k: nat) -> Seq<u32>
    decreases k,
{
    if k == 0 {
        p
    } else {
        let q = glyph_drawn(p, cw, ch, x, y, g, color, (k - 1) as nat);
        let i = k - 1;
        let px = x + i % 7;
        let py = y + i / 7;
        if g[i] > 0 && px >= 0 && py >= 0 { blend_spec(q, cw, ch, px, py, color, g[i]) } else { q }
    }
}

/// The state after the first `k` characters of `text` drawn from `(x, y)`
/// on a `cw` by `ch` canvas: the buffer, the pen position, and whether
/// clipping at `max_x` has stopped the drawing.
pub open spec fn text_drawn(p: Seq<u32>, cw: int, ch: int, x: int, y: int, text: Seq<char>, color: u32, max_x: int, k: nat)
    -> (Seq<u32>, int, bool)
    decreases k,
{
    if k == 0 {
        (p, x, false)
    } else {
        let s = text_drawn(p, cw, ch, x, y, text, color, max_x, (k - 1) as nat);
        if s.2 || s.1 + 7 > max_x {
            (s.0, s.1, true)
        } else {
            (glyph_drawn(s.0, cw, ch, s.1, y, glyph_for(text[k - 1]), color, 112), s.1 + 7, false)
        }
    }
}

impl Canvas {
    /// Draw one glyph at `(x, y)`; returns the advance width (7).
    pub fn draw_char(&mut self, x: i32, y: i32, c: char, color: Color) -> (adv: i32)
        requires
            old(self).wf(),
            x <= i32::MAX - 7,
            y <= i32::MAX - 16,
        ensures
            final(self).wf(),
            final(self).width == old(self).width,
            final(self).height == old(self).height,
            adv == 7,
            final(self).pixels@.len() == old(self).pixels@.len(),
            final(self).pixels@ == glyph_drawn(old(self).pixels@, old(self).width as int, old(self).height as int, x as int, y as int, glyph_for(c), color, 112),
    {
        let (pixels, width) = match raster(c) {
            Some(g) => g,
            None => match raster('?') {
                Some(g) => g,
                None => {
                    assert(false);
                    return 0;
                },
            },
        };
        let ghost c0 = *self;
        let mut k: usize = 0;
        while k < 112
            invariant
                self.wf(),
                c0.wf(),
                self.width == c0.width,
                self.height == c0.height,
                self.pixels@.len() == c0.pixels@.len(),
                pixels@ == glyph_for(c),
                pixels@.len() == 112,
                x <= i32::MAX - 7,
                y <= i32::MAX - 16,
                k <= 112,
                self.pixels@ == glyph_drawn(c0.pixels@, c0.width as int, c0.height as int, x as int, y as int, glyph_for(c), color, k as nat),
            decreases 112 - k,
        {
            let intensity = pixels[k];
            let dx = (k % 7) as i32;
            let dy = (k / 7) as i32;
            if intensity > 0 {
                let px = x + dx;
                let py = y + dy;
                if px >= 0 && py >= 0 {
                    self.blend(px as usize, py as usize, color, intensity);
                }
            }
            k = k + 1;
        }
        width as i32
    }

    /// Draw a string from `(x, y)`; drawing stops before the first glyph
    /// that would end past `max_x`.
    pub fn draw_text(&mut self, x: i32, y: i32, text: &str, color: Color, max_x: i32)
        requires
            old(self).wf(),
            x <= i32::MAX - 7,
            max_x <= i32::MAX - 7,
            y <= i32::MAX - 16,
        ensures
            final(self).wf(),
            final(self).width == old(self).width,
            final(self).height == old(self).height,
            final(self).pixels@.len() == old(self).pixels@.len(),
            final(self).pixels@ == text_drawn(old(self).pixels@, old(self).width as int, old(self).height as int, x as int, y as int, text@, color, max_x as int,
                text@.len()).0,
    {
        let ghost c0 = *self;
        let n = text.unicode_len();
        let gw = glyph_width() as i32;
        let mut cx = x;
        let mut i: usize = 0;
        let mut stopped = false;
        while i < n
            invariant
                self.wf(),
                c0.wf(),
                self.width == c0.width,
                self.height == c0.height,
                self.pixels@.len() == c0.pixels@.len(),
                n == text@.len(),
                gw == 7,
                i <= n,
                x <= i32::MAX - 7,
                max_x <= i32::MAX - 7,
                y <= i32::MAX - 16,
                cx <= i32::MAX - 7,
                text_drawn(c0.pixels@, c0.width as int, c0.height as int, x as int, y as int, text@, color, max_x as int, i as nat) == (self.pixels@, cx as int, stopped),
            decreases n - i,
        {
            if !stopped {
                if cx + gw > max_x {
                    stopped = true;
                } else {
                    let c = text.get_char(i);
                    let adv = self.draw_char(cx, y, c, color);
                    cx = cx + adv;
                }
            }
            i = i + 1;
        }
    }
}

/// `q` with pixel `(x, y)` of a `cw` by `ch` canvas set to `color`, when it
/// is on the canvas.
pub open spec fn line_put(q: Seq<u32>, cw: int, ch: int, x: int, y: int, color: u32) -> Seq<u32> {
    if 0 <= x < cw && 0 <= y < ch { q.update(y * cw + x, color) } else { q }
}

/// Bresenham's walk from `(x, y)` with error term `err` toward `(x1, y1)`
/// (distances `dx` and `dy <= 0`, steps `sx` and `sy`), plotting each point
/// up to and including the end, for at most `fuel` points.
pub open spec fn line_from(q: Seq<u32>, cw: int, ch: int, x: int, y: int, err: int, x1: int, y1: int,
    dx: int, dy: int, sx: int, sy: int, color: u32, fuel: nat) -> Seq<u32>
    decreases fuel,
{
    if fuel == 0 {
        q
    } else {
        let q1 = line_put(q, cw, ch, x, y, color);
        if x == x1 && y == y1 {
            q1
        } else {
            let e2 = 2 * err;
            let xn = if e2 >= dy { x + sx } else { x };
            let e1 = if e2 >= dy { err + dy } else { err };
            let yn = if e2 <= dx { y + sy } else { y };
            let en = if e2 <= dx { e1 + dx } else { e1 };
            line_from(q1, cw, ch, xn, yn, en, x1, y1, dx, dy, sx, sy, color, (fuel - 1) as nat)
        }
    }
}

/// The line from `(x0, y0)` to `(x1, y1)` drawn over `q`: every point of
/// Bresenham's walk, both ends included, that lies on the canvas.
pub open spec fn line_drawn(q: Seq<u32>, cw: int, ch: int, x0: int, y0: int, x1: int, y1: int, color: u32) -> Seq<u32> {
    let dx = if x1 >= x0 { x1 - x0 } else { x0 - x1 };
    let ady = if y1 >= y0 { y1 - y0 } else { y0 - y1 };
    let sx: int = if x0 < x1 { 1 } else { -1 };
    let sy: int = if y0 < y1 { 1 } else { -1 };
    line_from(q, cw, ch, x0, y0, dx - ady, x1, y1, dx, -ady, sx, sy, color, (dx + ady + 1) as nat)
}

impl Canvas {
    /// Bresenham line from `(x0, y0)` to `(x1, y1)`: it steps one pixel at a
    /// time from the start to the end, plotting every position that is not
    /// negative. Both end points are plotted (when on the canvas) and no
    /// pixel gets anything but `color`.
    pub fn draw_line(&mut self, x0: i32, y0: i32, x1: i32, y1: i32, color: Color)
        requires
            old(self).wf(),
            -0x1FFF_FFFF <= x1 - x0 <= 0x1FFF_FFFF,
            -0x1FFF_FFFF <= y1 - y0 <= 0x1FFF_FFFF,
        ensures
            final(self).wf(),
            final(self).width == old(self).width,
            final(self).height == old(self).height,
            final(self).pixels@.len() == old(self).pixels@.len(),
            forall|i: int| 0 <= i < old(self).pixels@.len() ==>
                #[trigger] final(self).pixels@[i] == old(self).pixels@[i] || final(self).pixels@[i] == color,
            x0 >= 0 && y0 >= 0 && x0 < old(self).width && y0 < old(self).height ==>
                final(self).pixels@[y0 * old(self).width + x0] == color,
            x1 >= 0 && y1 >= 0 && x1 < old(self).width && y1 < old(self).height ==>
                final(self).pixels@[y1 * old(self).width + x1] == color,
            final(self).pixels@ == line_drawn(old(self).pixels@, old(self).width as int, old(self).height as int,
                x0 as int, y0 as int, x1 as int, y1 as int, color),
    {
        let ghost p0 = self.pixels@;
        let ghost wd = self.width as int;
        let ghost ht = self.height as int;
        let dx: i32 = if x1 >= x0 { x1 - x0 } else { x0 - x1 };
        let ady: i32 = if y1 >= y0 { y1 - y0 } else { y0 - y1 };
        let dy: i32 = -ady;
        let sx: i32 = if x0 < x1 { 1 } else { -1 };
        let sy: i32 = if y0 < y1 { 1 } else { -1 };
        let mut err: i32 = dx + dy;
        let mut x = x0;
        let mut y = y0;
        let ghost mut nx: int = 0;
        let ghost mut ny: int = 0;
        let mut first = true;
        let mut done = false;
        let ghost fuel: int = dx + ady + 1;
        let ghost mut it: int = 0;
        while !done
            invariant
                fuel == dx + ady + 1,
                0 <= it <= nx + ny,
                !done ==> line_drawn(p0, wd, ht, x0 as int, y0 as int, x1 as int, y1 as int, color)
                    == line_from(self.pixels@, wd, ht, x as int, y as int, err as int, x1 as int, y1 as int,
                        dx as int, dy as int, sx as int, sy as int, color, (fuel - it) as nat),
                done ==> self.pixels@ == line_drawn(p0, wd, ht, x0 as int, y0 as int, x1 as int, y1 as int, color),
                self.wf(),
                self.width == wd,
                self.height == ht,
                self.pixels@.len() == p0.len(),
                0 <= dx <= 0x1FFF_FFFF,
                0 <= ady <= 0x1FFF_FFFF,
                dy == -ady,
                dx == (if x1 >= x0 { x1 - x0 } else { x0 - x1 }),
                ady == (if y1 >= y0 { y1 - y0 } else { y0 - y1 }),
                sx == (if x0 < x1 { 1int } else { -1int }),
                sy == (if y0 < y1 { 1int } else { -1int }),
                0 <= nx <= dx,
                0 <= ny <= ady,
                sx == 1 ==> x == x0 + nx,
                sx == -1 ==> x == x0 - nx,
                sy == 1 ==> y == y0 + ny,
                sy == -1 ==> y == y0 - ny,
                err == dx * (1 + ny) - ady * (1 + nx),
                2 * dy <= err <= 2 * dx,
                done ==> x == x1 && y == y1,
                forall|i: int| 0 <= i < p0.len() ==>
                    #[trigger] self.pixels@[i] == p0[i] || self.pixels@[i] == color,
                !first && x0 >= 0 && y0 >= 0 && x0 < wd && y0 < ht ==> self.pixels@[y0 * wd + x0] == color,
                first ==> x == x0 && y == y0,
                done && x1 >= 0 && y1 >= 0 && x1 < wd && y1 < ht ==> self.pixels@[y1 * wd + x1] == color,
            decreases (dx - nx) + (ady - ny) + (if done { 0int } else { 1int }),
        {
            let ghost before = self.pixels@;
            let ghost (gx, gy, gerr) = (x as int, y as int, err as int);
            if x >= 0 && y >= 0 {
                let ux = x as usize;
                let uy = y as usize;
                self.put(ux, uy, color);
                proof {
                    if ux < wd && uy < ht {
                        assert(uy * wd + ux < wd * ht) by (nonlinear_arith)
                            requires ux < wd, uy < ht;
                        assert(self.pixels@ == before.update(uy * wd + ux, color));
                    } else {
                        assert(self.pixels@ == before);
                    }
                }
            }
            proof {
                assert(self.pixels@ == line_put(before, wd, ht, x as int, y as int, color));
                assert forall|i: int| 0 <= i < p0.len() implies
                    #[trigger] self.pixels@[i] == before[i] || self.pixels@[i] == color by {
                }
                assert forall|i: int| 0 <= i < p0.len() && before[i] == color implies
                    #[trigger] self.pixels@[i] == color by {
                }
                if x >= 0 && y >= 0 && x < wd && y < ht {
                    assert(self.pixels@[y * wd + x] == color);
                }
                if x0 >= 0 && y0 >= 0 && x0 < wd && y0 < ht {
                    assert(y0 * wd + x0 < wd * ht) by (nonlinear_arith)
                        requires 0 <= x0 < wd, 0 <= y0 < ht;
                    if !first {
                        assert(before[y0 * wd + x0] == color);
                    }
                    assert(self.pixels@[y0 * wd + x0] == color);
                }
            }
            first = false;
            if x == x1 && y == y1 {
                done = true;
            } else {
                let e2 = 2 * err;
                let ghost xs = e2 >= dy;
                let ghost ys = e2 <= dx;
                proof {
                    if nx == dx {
                        assert(x == x1);
                        assert(ny < ady);
                        assert(2 * err < dy) by (nonlinear_arith)
                            requires err == dx * (1 + ny) - ady * (1 + nx), nx == dx, ny + 1 <= ady, dy == -ady, dx >= 0, ny >= 0;
                        assert(!xs);
                    }
                    if ny == ady {
                        assert(y == y1);
                        assert(nx < dx);
                        assert(2 * err > dx) by (nonlinear_arith)
                            requires err == dx * (1 + ny) - ady * (1 + nx), ny == ady, nx + 1 <= dx, ady >= 0, nx >= 0;
                        assert(!ys);
                    }
                    assert(xs || ys);
                }
                if e2 >= dy {
                    err = err + dy;
                    x = x + sx;
                    proof {
                        nx = nx + 1;
                    }
                }
                if e2 <= dx {
                    err = err + dx;
                    y = y + sy;
                    proof {
                        ny = ny + 1;
                    }
                }
                proof {
                    assert(err == dx * (1 + ny) - ady * (1 + nx)) by (nonlinear_arith)
                        requires
                            xs && ys ==> err == (dx * (1 + (ny - 1)) - ady * (1 + (nx - 1))) + dy + dx,
                            xs && !ys ==> err == (dx * (1 + ny) - ady * (1 + (nx - 1))) + dy,
                            !xs && ys ==> err == (dx * (1 + (ny - 1)) - ady * (1 + nx)) + dx,
                            xs || ys,
                            dy == -ady;
                    it = it + 1;
                }
            }
        }
    }
}

} // verus!
