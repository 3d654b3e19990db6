//! Text console rendered into the boot framebuffer: pixel encoding for the
//! framebuffer's format, glyph blending, line wrapping and scrolling, and
//! presenting a composed back buffer. The framebuffer memory itself is held
//! as a byte buffer; mapping it is the machine's part.

use vstd::prelude::*;
use crate::gfx::{glyph_height, glyph_width};

verus! {

/// Pixels between lines.
pub const LINE_SPACING: usize = 2;
/// Margin around the text area.
pub const BORDER: usize = 8;
/// Console foreground (leaf green).
pub const FG: (u8, u8, u8) = (0xB8, 0xE9, 0x94);
/// Console background (deep soil).
pub const BG: (u8, u8, u8) = (0x0B, 0x12, 0x0B);

/// The framebuffer's pixel layout.
#[derive(Clone, Copy, PartialEq, Eq, Debug, Structural)]
pub enum PixFmt {
    Rgb,
    Bgr,
    Gray,
    Other,
}

/// The framebuffer's geometry.
#[derive(Clone, Copy, PartialEq, Eq, Debug, Structural)]
pub struct FbInfo {
    pub width: usize,
    pub height: usize,
    /// Pixels per row in memory (at least `width`).
    pub stride: usize,
    pub bytes_per_pixel: usize,
    pub format: PixFmt,
}

impl FbInfo {
    /// A layout a console can use: at least one text line high and a margin
    /// wide, at most 16384 pixels each way, 1 to 4 bytes per pixel (3 or 4 for
    /// RGB and BGR).
    pub open spec fn wf(&self) -> bool {
        &&& BORDER <= self.width <= self.stride <= 16384
        &&& 18 <= self.height <= 16384
        &&& 1 <= self.bytes_per_pixel <= 4
        &&& (self.format == PixFmt::Rgb || self.format == PixFmt::Bgr) ==> self.bytes_per_pixel >= 3
    }

    /// Bytes of the whole framebuffer.
    pub open spec fn size(&self) -> int {
        self.stride * self.height * self.bytes_per_pixel
    }

    /// Offset of pixel `(x, y)`.
    pub open spec fn offset(&self, x: int, y: int) -> int {
        (y * self.stride + x) * self.bytes_per_pixel
    }
}

/// The color of a glyph pixel of intensity `i`: foreground and background
/// mixed, each channel `(f * i + b * (255 - i)) / 255`.
pub open spec fn mix(f: u8, b: u8, i: u8) -> u8 {
    ((f as int * i as int + b as int * (255 - i as int)) / 255) as u8
}

/// The blended color of intensity `i`.
pub open spec fn blended(i: u8) -> (u8, u8, u8) {
    (mix(FG.0, BG.0, i), mix(FG.1, BG.1, i), mix(FG.2, BG.2, i))
}

fn mix_channel(f: u8, b: u8, i: u8) -> (r: u8)
    ensures
        r == mix(f, b, i),
{
    proof {
        assert((f as int) * (i as int) <= 255 * (i as int)) by (nonlinear_arith) requires f <= 255, i >= 0;
        assert((b as int) * (255 - i as int) <= 255 * (255 - i as int)) by (nonlinear_arith) requires b <= 255, i <= 255;
    }
    let a: u32 = f as u32 * i as u32;
    let c: u32 = b as u32 * (255 - i as u32);
    let v: u32 = (a + c) / 255;
    assert(v <= 255);
    v as u8
}

/// Blend the console colors for a glyph pixel of intensity `intensity`.
pub fn blend(intensity: u8) -> (c: (u8, u8, u8))
    ensures
        c == blended(intensity),
{
    (mix_channel(FG.0, BG.0, intensity), mix_channel(FG.1, BG.1, intensity), mix_channel(FG.2, BG.2, intensity))
}

/// The bytes of one pixel in a format: RGB and BGR order the channels, a
/// gray framebuffer takes their mean, and an unknown layout gets the green
/// channel in its first byte. Bytes past those are left as they were.
pub open spec fn encoded(old_px: Seq<u8>, format: PixFmt, c: (u8, u8, u8)) -> Seq<u8> {
    let (r, g, b) = c;
    match format {
        PixFmt::Rgb => old_px.update(0, r).update(1, g).update(2, b),
        PixFmt::Bgr => old_px.update(0, b).update(1, g).update(2, r),
        PixFmt::Gray => old_px.update(0, ((r as int + g as int + b as int) / 3) as u8),
        PixFmt::Other => old_px.update(0, g),
    }
}

/// Write one pixel at `buf[off..off + bpp]`.
pub fn write_pixel(buf: &mut Vec<u8>, off: usize, bpp: usize, format: PixFmt, c: (u8, u8, u8))
    requires
        1 <= bpp,
        (format == PixFmt::Rgb || format == PixFmt::Bgr) ==> bpp >= 3,
        off + bpp <= old(buf)@.len(),
    ensures
        final(buf)@.len() == old(buf)@.len(),
        final(buf)@.subrange(off as int, off + bpp) == encoded(old(buf)@.subrange(off as int, off + bpp), format, c),
        forall|k: int| 0 <= k < old(buf)@.len() && !(off <= k < off + bpp) ==> final(buf)@[k] == old(buf)@[k],
{
    let (r, g, b) = c;
    let _n = buf.len();
    match format {
        PixFmt::Rgb => {
            buf.set(off, r);
            buf.set(off + 1, g);
            buf.set(off + 2, b);
        },
        PixFmt::Bgr => {
            buf.set(off, b);
            buf.set(off + 1, g);
            buf.set(off + 2, r);
        },
        PixFmt::Gray => {
            buf.set(off, ((r as u16 + g as u16 + b as u16) / 3) as u8);
        },
        PixFmt::Other => {
            buf.set(off, g);
        },
    }
    assert(buf@.subrange(off as int, off + bpp) =~= encoded(old(buf)@.subrange(off as int, off + bpp), format, c));
}

/// The text console.
pub struct Console {
    pub info: FbInfo,
    pub buf: Vec<u8>,
    /// Pen position in pixels.
    pub x: usize,
    pub y: usize,
    pub glyph_w: usize,
}

impl Console {
    /// The layout is usable, the buffer covers it, and the pen is on screen.
    pub open spec fn wf(&self) -> bool {
        &&& self.info.wf()
        &&& self.buf@.len() == self.info.size()
        &&& self.glyph_w == 7
        &&& self.x <= self.info.width
        &&& self.y < self.info.height
    }

    /// Pixel `(x, y)` of the framebuffer, as bytes.
    pub open spec fn pixel(&self, x: int, y: int) -> Seq<u8> {
        self.buf@.subrange(self.info.offset(x, y), self.info.offset(x, y) + self.info.bytes_per_pixel)
    }

    /// A console over `buf`, cleared to the background, the pen at the
    /// top-left margin.
    pub fn new(info: FbInfo, buf: Vec<u8>) -> (c: Console)
        requires
            info.wf(),
            buf@.len() == info.size(),
        ensures
            c.wf(),
            c.info == info,
            c.x == BORDER && c.y == BORDER,
            forall|x: int, y: int| 0 <= x < info.stride && 0 <= y < info.height ==>
                #[trigger] c.pixel(x, y) == encoded(buf@.subrange(info.offset(x, y), info.offset(x, y) + info.bytes_per_pixel), info.format, BG),
    {
        let mut b = buf;
        let bpp = info.bytes_per_pixel;
        proof { lemma_layout(info); }
        let n = info.stride * info.height;
        let mut p: usize = 0;
        while p < n
            invariant
                info.wf(),
                n == info.stride * info.height,
                n * bpp <= 0x4000_0000,
                bpp == info.bytes_per_pixel,
                b@.len() == buf@.len(),
                buf@.len() == n * bpp,
                p <= n,
                forall|q: int| 0 <= q < p ==> #[trigger] b@.subrange(q * bpp, q * bpp + bpp)
                    == encoded(buf@.subrange(q * bpp, q * bpp + bpp), info.format, BG),
                forall|k: int| p * bpp <= k < b@.len() ==> b@[k] == buf@[k],
            decreases n - p,
        {
            proof { lemma_mul_step(p as int, n as int, bpp as int); }
            let ghost before = b@;
            write_pixel(&mut b, p * bpp, bpp, info.format, BG);
            proof {
                assert forall|q: int| 0 <= q < p + 1 implies #[trigger] b@.subrange(q * bpp, q * bpp + bpp)
                    == encoded(buf@.subrange(q * bpp, q * bpp + bpp), info.format, BG) by {
                    lemma_mul_step(q, n as int, bpp as int);
                    if q < p {
                        lemma_disjoint(q, p as int, bpp as int);
                        assert(b@.subrange(q * bpp, q * bpp + bpp) =~= before.subrange(q * bpp, q * bpp + bpp));
                    } else {
                        assert(before.subrange(q * bpp, q * bpp + bpp) =~= buf@.subrange(q * bpp, q * bpp + bpp));
                    }
                }
                assert forall|k: int| (p + 1) * bpp <= k < b@.len() implies b@[k] == buf@[k] by {
                    assert((p + 1) * bpp == p * bpp + bpp) by (nonlinear_arith);
                }
            }
            p = p + 1;
        }
        let c = Console { info, buf: b, x: BORDER, y: BORDER, glyph_w: glyph_width() };
        proof {
            assert forall|x: int, y: int| 0 <= x < info.stride && 0 <= y < info.height implies
                #[trigger] c.pixel(x, y) == encoded(buf@.subrange(info.offset(x, y), info.offset(x, y) + info.bytes_per_pixel), info.format, BG) by {
                let q = y * info.stride + x;
                lemma_row_major(x, y, info.stride as int, info.height as int);
                assert(info.offset(x, y) == q * bpp);
            }
        }
        c
    }

    /// Framebuffer dimensions in pixels.
    pub fn dimensions(&self) -> (d: (usize, usize))
        ensures
            d == (self.info.width, self.info.height),
    {
        (self.info.width, self.info.height)
    }

    /// Move the pen to the next line, scrolling one line up when the next
    /// line would not fit.
    pub fn newline(&mut self)
        requires
            old(self).wf(),
        ensures
            final(self).wf(),
            final(self).info == old(self).info,
            final(self).x == BORDER,
            old(self).y + 18 + 16 >= old(self).info.height ==> final(self).y == old(self).y
                && final(self).buf@ == scrolled(old(self).buf@, old(self).info),
            old(self).y + 18 + 16 < old(self).info.height ==> final(self).y == old(self).y + 18
                && final(self).buf@ == old(self).buf@,
    {
        self.x = BORDER;
        let line = glyph_height() + LINE_SPACING;
        let next = self.y + line;
        if next + glyph_height() >= self.info.height {
            self.scroll();
        } else {
            self.y = next;
        }
    }

    /// Scroll the screen up by one text line (18 pixel rows), clearing the
    /// rows that come free to the background.
    fn scroll(&mut self)
        requires
            old(self).wf(),
        ensures
            final(self).wf(),
            final(self).info == old(self).info,
            final(self).x == old(self).x,
            final(self).y == old(self).y,
            final(self).buf@ == scrolled(old(self).buf@, old(self).info),
    {
        let info = self.info;
        let bpp = info.bytes_per_pixel;
        proof {
            lemma_layout(info);
            assert(info.stride * bpp <= 16384 * 4) by (nonlinear_arith) requires info.stride <= 16384, bpp <= 4;
        }
        let row_bytes = info.stride * bpp;
        let step = 18 * row_bytes;
        let len = self.buf.len();
        proof {
            assert(step <= len) by (nonlinear_arith)
                requires step == 18 * (info.stride * bpp), len == info.stride * info.height * bpp, info.height >= 18;
        }
        let mut out: Vec<u8> = Vec::new();
        let mut k = step;
        while k < len
            invariant
                step <= k <= len,
                len == self.buf@.len(),
                out@ == self.buf@.subrange(step as int, k as int),
            decreases len - k,
        {
            out.push(self.buf[k]);
            assert(out@ =~= self.buf@.subrange(step as int, k + 1));
            k = k + 1;
        }
        let mut t: usize = 0;
        let pixels = step / bpp;
        proof {
            assert(step == (18 * info.stride) * bpp) by (nonlinear_arith) requires step == 18 * (info.stride * bpp);
            vstd::arithmetic::div_mod::lemma_div_multiples_vanish((18 * info.stride) as int, bpp as int);
        }
        let ghost head = out@;
        while t < pixels
            invariant
                pixels * bpp == step,
                bpp == info.bytes_per_pixel,
                1 <= bpp <= 4,
                (info.format == PixFmt::Rgb || info.format == PixFmt::Bgr) ==> bpp >= 3,
                t <= pixels,
                out@.len() == head.len() + t * bpp,
                out@.subrange(0, head.len() as int) == head,
                forall|q: int| 0 <= q < t ==> #[trigger] out@.subrange(head.len() + q * bpp, head.len() + q * bpp + bpp)
                    == bg_pixel(info),
            decreases pixels - t,
        {
            let ghost before = out@;
            let mut z: usize = 0;
            while z < bpp
                invariant
                    z <= bpp,
                    out@.len() == before.len() + z,
                    out@.subrange(0, before.len() as int) == before,
                    forall|j: int| before.len() <= j < out@.len() ==> out@[j] == 0,
                decreases bpp - z,
            {
                out.push(0);
                assert(out@.subrange(0, before.len() as int) =~= before);
                z = z + 1;
            }
            let off = out.len() - bpp;
            assert(off == before.len());
            assert(out@.subrange(off as int, off + bpp) =~= Seq::new(bpp as nat, |j: int| 0u8));
            let ghost mid = out@;
            write_pixel(&mut out, off, bpp, info.format, BG);
            proof {
                assert forall|k: int| 0 <= k < before.len() implies out@[k] == before[k] by {
                    assert(mid.subrange(0, before.len() as int)[k] == mid[k]);
                }
                assert(out@.subrange(0, head.len() as int) =~= head) by {
                    assert(0 <= t * bpp) by (nonlinear_arith) requires t >= 0, bpp >= 1;
                    assert forall|k: int| 0 <= k < head.len() implies out@[k] == head[k] by {
                        assert(before.subrange(0, head.len() as int)[k] == before[k]);
                    }
                }
                assert forall|q: int| 0 <= q < t + 1 implies #[trigger] out@.subrange(head.len() + q * bpp, head.len() + q * bpp + bpp)
                    == bg_pixel(info) by {
                    if q < t {
                        assert((q + 1) * bpp <= t * bpp) by (nonlinear_arith) requires q + 1 <= t, bpp >= 1;
                        assert(q * bpp + bpp == (q + 1) * bpp) by (nonlinear_arith);
                        assert(0 <= q * bpp) by (nonlinear_arith) requires q >= 0, bpp >= 1;
                        assert(out@.subrange(head.len() + q * bpp, head.len() + q * bpp + bpp)
                            =~= before.subrange(head.len() + q * bpp, head.len() + q * bpp + bpp));
                    } else {
                        assert(head.len() + q * bpp == off);
                        assert(mid.subrange(off as int, off + bpp) =~= Seq::new(info.bytes_per_pixel as nat, |j: int| 0u8));
                        assert(out@.subrange(off as int, off + bpp) == bg_pixel(info));
                    }
                }
                assert((t + 1) * bpp == t * bpp + bpp) by (nonlinear_arith);
            }
            t = t + 1;
        }
        proof {
            assert(out@.len() == len) by {
                assert(head.len() == len - step);
            }
            assert(out@ =~= scrolled(self.buf@, info)) by {
                lemma_scrolled_shape(self.buf@, info, out@, head, pixels as int);
            }
        }
        self.buf = out;
    }

    /// Write one character: newline and carriage return move the pen;
    /// anything else wraps when it would reach the right margin, is drawn
    /// (as `?` when the font lacks it) and advances the pen.
    pub fn write_char(&mut self, c: char)
        requires
            old(self).wf(),
        ensures
            final(self).wf(),
            final(self).info == old(self).info,
            c == '\r' ==> final(self).x == BORDER && final(self).y == old(self).y && final(self).buf@ == old(self).buf@,
    {
        if c == '\n' {
            self.newline();
        } else if c == '\r' {
            self.x = BORDER;
        } else {
            if self.x + self.glyph_w >= self.info.width - BORDER {
                self.newline();
            }
            self.draw_glyph(c);
            let nx = self.x + self.glyph_w;
            self.x = if nx > self.info.width { self.info.width } else { nx };
        }
    }

    /// Draw the glyph for `c` (or `?`) at the pen, blending each of its
    /// pixels that lies on the screen.
    fn draw_glyph(&mut self, c: char)
        requires
            old(self).wf(),
        ensures
            final(self).wf(),
            final(self).info == old(self).info,
            final(self).x == old(self).x,
            final(self).y == old(self).y,
            final(self).glyph_w == old(self).glyph_w,
            glyph_done(*old(self), *final(self), crate::gfx::glyph_for(c), 112),
    {
        let (g, w) = crate::gfx::glyph_raster(c);
        let info = self.info;
        proof { lemma_layout(info); }
        let rows = g.len() / w;
        let ghost c0 = *self;
        let mut dy: usize = 0;
        while dy < rows
            invariant
                self.wf(),
                self.info == info,
                c0 == *old(self),
                info == c0.info,
                self.x == old(self).x,
                self.y == old(self).y,
                self.glyph_w == old(self).glyph_w,
                w == 7,
                g@.len() == 112,
                g@ == crate::gfx::glyph_for(c),
                rows == 16,
                dy <= 16,
                glyph_done(c0, *self, g@, dy * 7),
            decreases rows - dy,
        {
            let mut dx: usize = 0;
            while dx < w
                invariant
                    self.wf(),
                    self.info == info,
                    c0 == *old(self),
                    info == c0.info,
                    self.x == old(self).x,
                    self.y == old(self).y,
                    self.glyph_w == old(self).glyph_w,
                    w == 7,
                    g@.len() == 112,
                    dy < 16,
                    dx <= 7,
                    glyph_done(c0, *self, g@, dy * 7 + dx),
                decreases w - dx,
            {
                let x = self.x + dx;
                let y = self.y + dy;
                let ghost before = *self;
                let ghost k = dy * 7 + dx;
                if x < info.width && y < info.height {
                    let color = blend(g[dy * w + dx]);
                    proof { lemma_offset_in(info, x as int, y as int); }
                    let off = (y * info.stride + x) * info.bytes_per_pixel;
                    write_pixel(&mut self.buf, off, info.bytes_per_pixel, info.format, color);
                    proof {
                        assert forall|px: int, py: int| 0 <= px < info.stride && 0 <= py < info.height implies
                            #[trigger] self.pixel(px, py) == glyph_pixel(c0, g@, k + 1, px, py) by {
                            lemma_glyph_index(px - c0.x, py - c0.y, dx as int, dy as int);
                            assert(before.pixel(px, py) == glyph_pixel(c0, g@, k, px, py));
                            if px == x && py == y {
                                assert(self.pixel(px, py) =~= encoded(before.pixel(px, py), info.format, color));
                            } else {
                                lemma_pixels_disjoint(info, px, py, x as int, y as int);
                                lemma_offset_in(info, px, py);
                                let o = info.offset(px, py);
                                assert forall|i: int| 0 <= i < info.bytes_per_pixel implies
                                    #[trigger] self.buf@[o + i] == before.buf@[o + i] by {}
                                assert(self.pixel(px, py) =~= before.pixel(px, py));
                            }
                        }
                    }
                } else {
                    proof {
                        assert forall|px: int, py: int| 0 <= px < info.stride && 0 <= py < info.height implies
                            #[trigger] self.pixel(px, py) == glyph_pixel(c0, g@, k + 1, px, py) by {
                            lemma_glyph_index(px - c0.x, py - c0.y, dx as int, dy as int);
                            assert(before.pixel(px, py) == glyph_pixel(c0, g@, k, px, py));
                        }
                    }
                }
                dx = dx + 1;
            }
            dy = dy + 1;
        }
    }

    /// Copy a `width * height` back buffer of `0x00RRGGBB` pixels to the
    /// framebuffer in its format.
    pub fn present(&mut self, back: &[u32])
        requires
            old(self).wf(),
            back@.len() == old(self).info.width * old(self).info.height,
        ensures
            final(self).wf(),
            final(self).info == old(self).info,
            final(self).x == old(self).x && final(self).y == old(self).y,
            forall|x: int, y: int| 0 <= x < old(self).info.width && 0 <= y < old(self).info.height ==>
                #[trigger] final(self).pixel(x, y) == encoded(old(self).pixel(x, y), old(self).info.format,
                    rgb_of(back@[y * old(self).info.width + x])),
    {
        let info = self.info;
        let (w, h) = (info.width, info.height);
        let bpp = info.bytes_per_pixel;
        proof { lemma_layout(info); }
        let ghost start = self.buf@;
        proof {
            assert(w * h <= info.stride * h) by (nonlinear_arith) requires w <= info.stride, h >= 0;
        }
        let mut y: usize = 0;
        while y < h
            invariant
                self.wf(),
                self.info == info,
                self.x == old(self).x && self.y == old(self).y,
                start == old(self).buf@,
                w == info.width && h == info.height && bpp == info.bytes_per_pixel,
                back@.len() == w * h,
                w * h <= 0x1000_0000,
                y <= h,
                forall|px: int, py: int| 0 <= px < w && 0 <= py < y ==>
                    #[trigger] self.pixel(px, py) == encoded(old(self).pixel(px, py), info.format, rgb_of(back@[py * w + px])),
                forall|px: int, py: int| 0 <= px < info.stride && y <= py < h ==> #[trigger] self.pixel(px, py) == old(self).pixel(px, py),
                forall|px: int, py: int| w <= px < info.stride && 0 <= py < h ==> #[trigger] self.pixel(px, py) == old(self).pixel(px, py),
            decreases h - y,
        {
            let mut x: usize = 0;
            while x < w
                invariant
                    self.wf(),
                    self.info == info,
                    self.x == old(self).x && self.y == old(self).y,
                    w == info.width && h == info.height && bpp == info.bytes_per_pixel,
                    back@.len() == w * h,
                    w * h <= 0x1000_0000,
                    y < h,
                    x <= w,
                    forall|px: int, py: int| 0 <= px < w && 0 <= py < y ==>
                        #[trigger] self.pixel(px, py) == encoded(old(self).pixel(px, py), info.format, rgb_of(back@[py * w + px])),
                    forall|px: int| 0 <= px < x ==>
                        #[trigger] self.pixel(px, y as int) == encoded(old(self).pixel(px, y as int), info.format, rgb_of(back@[y * w + px])),
                    forall|px: int| x <= px < info.stride ==> #[trigger] self.pixel(px, y as int) == old(self).pixel(px, y as int),
                    forall|px: int, py: int| 0 <= px < info.stride && y < py < h ==> #[trigger] self.pixel(px, py) == old(self).pixel(px, py),
                    forall|px: int, py: int| w <= px < info.stride && 0 <= py < h ==> #[trigger] self.pixel(px, py) == old(self).pixel(px, py),
                decreases w - x,
            {
                proof {
                    assert(y * w + x < w * h) by (nonlinear_arith) requires x < w, y < h;
                    lemma_offset_in(info, x as int, y as int);
                }
                let src = back[y * w + x];
                let color = rgb(src);
                let off = (y * info.stride + x) * bpp;
                let ghost before = *self;
                write_pixel(&mut self.buf, off, bpp, info.format, color);
                proof {
                    assert forall|px: int, py: int| 0 <= px < info.stride && 0 <= py < h && !(px == x && py == y) implies
                        #[trigger] self.pixel(px, py) == before.pixel(px, py) by {
                        lemma_pixels_disjoint(info, px, py, x as int, y as int);
                        lemma_offset_in(info, px, py);
                        let o = info.offset(px, py);
                        assert forall|i: int| 0 <= i < bpp implies #[trigger] self.buf@[o + i] == before.buf@[o + i] by {}
                        assert(self.pixel(px, py) =~= before.pixel(px, py));
                    }
                    assert(self.pixel(x as int, y as int) =~= encoded(before.pixel(x as int, y as int), info.format, color));
                }
                x = x + 1;
            }
            y = y + 1;
        }
    }
}

/// Pixel `(px, py)` after the first `done` glyph pixels (row by row) of
/// glyph `g` were blended at the pen of `c`: those that lie on the screen
/// take the blended color, the rest keep their bytes.
pub open spec fn glyph_pixel(c: Console, g: Seq<u8>, done: int, px: int, py: int) -> Seq<u8> {
    if px < c.info.width && c.x <= px < c.x + 7 && c.y <= py < c.y + 16 && (py - c.y) * 7 + (px - c.x) < done {
        encoded(c.pixel(px, py), c.info.format, blended(g[(py - c.y) * 7 + (px - c.x)]))
    } else {
        c.pixel(px, py)
    }
}

/// Every pixel of `after` is as [`glyph_pixel`] says.
pub open spec fn glyph_done(before: Console, after: Console, g: Seq<u8>, done: int) -> bool {
    forall|px: int, py: int| 0 <= px < before.info.stride && 0 <= py < before.info.height ==>
        #[trigger] after.pixel(px, py) == glyph_pixel(before, g, done, px, py)
}

proof fn lemma_glyph_index(a: int, b: int, dx: int, dy: int)
    requires
        0 <= dx < 7,
        0 <= dy < 16,
    ensures
        (0 <= a < 7 && 0 <= b < 16 && b * 7 + a == dy * 7 + dx) ==> a == dx && b == dy,
        (0 <= a < 7 && 0 <= b < 16 && !(a == dx && b == dy)) ==> (b * 7 + a < dy * 7 + dx + 1 <==> b * 7 + a < dy * 7 + dx),
{
    if 0 <= a < 7 && 0 <= b < 16 {
        if b < dy {
            assert(b * 7 + a < dy * 7) by (nonlinear_arith) requires b < dy, a < 7;
        } else if b > dy {
            assert(b * 7 >= dy * 7 + 7) by (nonlinear_arith) requires b > dy;
        }
    }
}

/// The `(r, g, b)` channels of `0x00RRGGBB`.
pub open spec fn rgb_of(p: u32) -> (u8, u8, u8) {
    (((p / 0x10000) % 256) as u8, ((p / 256) % 256) as u8, (p % 256) as u8)
}

fn rgb(p: u32) -> (c: (u8, u8, u8))
    ensures
        c == rgb_of(p),
{
    (((p / 0x10000) % 256) as u8, ((p / 256) % 256) as u8, (p % 256) as u8)
}

/// One background pixel in the layout's format, from zero bytes.
pub open spec fn bg_pixel(info: FbInfo) -> Seq<u8> {
    encoded(Seq::new(info.bytes_per_pixel as nat, |j: int| 0u8), info.format, BG)
}

/// The framebuffer after scrolling one text line: everything from row 18 on
/// moves to the top, and the 18 freed rows at the bottom hold background
/// pixels.
pub open spec fn scrolled(buf: Seq<u8>, info: FbInfo) -> Seq<u8> {
    let step = 18 * info.stride * info.bytes_per_pixel;
    let bpp = info.bytes_per_pixel as int;
    buf.skip(step) + Seq::new(step as nat, |k: int| bg_pixel(info)[k % bpp])
}

proof fn lemma_layout(info: FbInfo)
    requires
        info.wf(),
    ensures
        info.stride * info.height <= 0x1000_0000,
        info.size() <= 0x4000_0000,
        info.size() == (info.stride * info.height) * info.bytes_per_pixel,
{
    assert(info.stride * info.height <= 16384 * 16384) by (nonlinear_arith)
        requires info.stride <= 16384, info.height <= 16384;
    assert((info.stride * info.height) * info.bytes_per_pixel <= 0x1000_0000 * 4) by (nonlinear_arith)
        requires info.stride * info.height <= 0x1000_0000, info.bytes_per_pixel <= 4;
    assert(info.stride * info.height * info.bytes_per_pixel == (info.stride * info.height) * info.bytes_per_pixel);
}

proof fn lemma_row_major(x: int, y: int, w: int, h: int)
    requires
        0 <= x < w,
        0 <= y < h,
    ensures
        0 <= y * w + x < w * h,
{
    assert(0 <= y * w) by (nonlinear_arith) requires y >= 0, w >= 0;
    assert(y * w + w == (y + 1) * w) by (nonlinear_arith);
    assert((y + 1) * w <= h * w) by (nonlinear_arith) requires y + 1 <= h, w >= 0;
    assert(h * w == w * h) by (nonlinear_arith);
}

proof fn lemma_mul_step(p: int, n: int, bpp: int)
    requires
        0 <= p < n,
        1 <= bpp,
    ensures
        p * bpp + bpp <= n * bpp,
        0 <= p * bpp,
{
    assert(p * bpp + bpp <= n * bpp) by (nonlinear_arith) requires p < n, bpp >= 1;
    assert(0 <= p * bpp) by (nonlinear_arith) requires p >= 0, bpp >= 1;
}

proof fn lemma_disjoint(q: int, p: int, bpp: int)
    requires
        0 <= q < p,
        1 <= bpp,
    ensures
        q * bpp + bpp <= p * bpp,
{
    assert(q * bpp + bpp <= p * bpp) by (nonlinear_arith) requires q < p, bpp >= 1;
}

proof fn lemma_offset_in(info: FbInfo, x: int, y: int)
    requires
        info.wf(),
        0 <= x < info.stride,
        0 <= y < info.height,
    ensures
        0 <= info.offset(x, y),
        info.offset(x, y) + info.bytes_per_pixel <= info.size(),
        0 <= y * info.stride,
        y * info.stride + x < info.stride * info.height,
        info.stride * info.height <= 0x1000_0000,
        info.size() <= 0x4000_0000,
{
    lemma_layout(info);
    lemma_row_major(x, y, info.stride as int, info.height as int);
    lemma_mul_step(y * info.stride + x, info.stride * info.height, info.bytes_per_pixel as int);
}

proof fn lemma_pixels_disjoint(info: FbInfo, px: int, py: int, x: int, y: int)
    requires
        info.wf(),
        0 <= px < info.stride && 0 <= py < info.height,
        0 <= x < info.stride && 0 <= y < info.height,
        !(px == x && py == y),
    ensures
        info.offset(px, py) + info.bytes_per_pixel <= info.offset(x, y)
            || info.offset(x, y) + info.bytes_per_pixel <= info.offset(px, py),
{
    let a = py * info.stride + px;
    let b = y * info.stride + x;
    assert(a != b) by (nonlinear_arith)
        requires a == py * info.stride + px, b == y * info.stride + x, 0 <= px < info.stride, 0 <= x < info.stride,
            !(px == x && py == y);
    if a < b {
        lemma_disjoint(a, b, info.bytes_per_pixel as int);
    } else {
        lemma_disjoint(b, a, info.bytes_per_pixel as int);
    }
}

proof fn lemma_scrolled_shape(buf: Seq<u8>, info: FbInfo, out: Seq<u8>, head: Seq<u8>, pixels: int)
    requires
        info.wf(),
        buf.len() == info.size(),
        head == buf.skip(18 * info.stride * info.bytes_per_pixel),
        pixels * info.bytes_per_pixel == 18 * info.stride * info.bytes_per_pixel,
        out.len() == head.len() + pixels * info.bytes_per_pixel,
        out.subrange(0, head.len() as int) == head,
        forall|q: int| 0 <= q < pixels ==> #[trigger] out.subrange(head.len() + q * info.bytes_per_pixel,
            head.len() + q * info.bytes_per_pixel + info.bytes_per_pixel) == bg_pixel(info),
    ensures
        out == scrolled(buf, info),
{
    let bpp = info.bytes_per_pixel as int;
    let step = 18 * info.stride * info.bytes_per_pixel;
    let s = scrolled(buf, info);
    assert(s.len() == out.len());
    assert forall|k: int| 0 <= k < out.len() implies out[k] == s[k] by {
        if k < head.len() {
            assert(out[k] == out.subrange(0, head.len() as int)[k]);
        } else {
            let r = k - head.len();
            let q = r / bpp;
            let j = r % bpp;
            vstd::arithmetic::div_mod::lemma_fundamental_div_mod(r, bpp);
            assert(0 <= q < pixels) by (nonlinear_arith)
                requires r == bpp * q + j, 0 <= j < bpp, 0 <= r < pixels * bpp, bpp >= 1;
            assert(head.len() + q * bpp + j == k) by (nonlinear_arith) requires r == bpp * q + j, k == head.len() + r;
            assert(q * bpp + bpp <= pixels * bpp) by (nonlinear_arith) requires q + 1 <= pixels, bpp >= 1;
            assert(0 <= q * bpp) by (nonlinear_arith) requires q >= 0, bpp >= 1;
            let sub = out.subrange(head.len() + q * bpp, head.len() + q * bpp + bpp);
            assert(sub[j] == out[head.len() + q * bpp + j]);
            assert(sub == bg_pixel(info));
        }
    }
    assert(out =~= s);
}

} // verus!
