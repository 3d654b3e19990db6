//! Desktop wallpaper. The default follows the active theme's desktop
//! gradient; built-in patterns and a user-supplied image (a 24-bit BMP) can
//! replace it. `paint` renders the current wallpaper into the compositor's
//! back buffer.

use vstd::prelude::*;
use crate::bytes::{le16, le32, u16_at, u32_at};
use crate::gfx::{Canvas, Color, rgb, grad_color, filled, lemma_index, lemma_split, row_of, col_of};
use crate::text::{owned, str_eq, texts};
use crate::theme::Theme;
use crate::wm::{shift, shifted};

verus! {

/// What the wallpaper shows.
pub enum Kind {
    /// The active theme's desktop colours (default).
    Theme,
    /// A built-in procedural pattern by index.
    Pattern(u8),
    /// A user image of `w` by `h` pixels, row by row.
    Image { w: i32, h: i32, pixels: Vec<u32> },
}

/// The wallpaper selection and its label.
pub struct Wallpaper {
    pub kind: Kind,
    pub label: String,
}

/// Names of the built-in wallpapers ("theme" is the default).
pub const BUILTINS: [&'static str; 5] = ["theme", "waves", "grid", "dots", "aurora"];

impl Wallpaper {
    /// An image, when selected, has positive size and all its pixels.
    pub open spec fn wf(&self) -> bool {
        self.kind matches Kind::Image { w, h, pixels } ==> 1 <= w <= 4096 && 1 <= h <= 4096 && pixels@.len() == w * h
    }

    /// The default: follow the theme.
    pub fn new() -> (s: Wallpaper)
        ensures
            s.wf(),
            s.kind is Theme,
            s.label@ == "theme"@,
    {
        Wallpaper { kind: Kind::Theme, label: owned("theme") }
    }
}

/// The label of the current wallpaper.
pub fn label(st: &Wallpaper) -> (s: String)
    ensures
        s@ == st.label@,
{
    owned(st.label.as_str())
}

/// The wallpaper a built-in name selects: "theme" follows the theme;
/// "waves", "grid", "dots" and "aurora" are patterns 0 to 3.
pub open spec fn builtin_kind(name: Seq<char>) -> Option<Kind> {
    if name == "theme"@ {
        Some(Kind::Theme)
    } else if name == "waves"@ {
        Some(Kind::Pattern(0))
    } else if name == "grid"@ {
        Some(Kind::Pattern(1))
    } else if name == "dots"@ {
        Some(Kind::Pattern(2))
    } else if name == "aurora"@ {
        Some(Kind::Pattern(3))
    } else {
        None
    }
}

/// Select a built-in wallpaper by name (see [`builtin_kind`]); returns
/// true if recognized. An unknown name changes nothing.
pub fn set_builtin(st: &mut Wallpaper, name: &str) -> (ok: bool)
    requires
        old(st).wf(),
    ensures
        final(st).wf(),
        ok == builtin_kind(name@) is Some,
        !ok ==> *final(st) == *old(st),
        ok ==> final(st).label@ == name@ && final(st).kind == builtin_kind(name@)->0,
{
    let kind = if str_eq(name, "theme") {
        Kind::Theme
    } else if str_eq(name, "waves") {
        Kind::Pattern(0)
    } else if str_eq(name, "grid") {
        Kind::Pattern(1)
    } else if str_eq(name, "dots") {
        Kind::Pattern(2)
    } else if str_eq(name, "aurora") {
        Kind::Pattern(3)
    } else {
        return false;
    };
    *st = Wallpaper { kind, label: owned(name) };
    true
}

/// Set a user image wallpaper from decoded pixels.
pub fn set_image(st: &mut Wallpaper, w: i32, h: i32, pixels: Vec<u32>, label: &str)
    requires
        1 <= w <= 4096,
        1 <= h <= 4096,
        pixels@.len() == w * h,
    ensures
        final(st).wf(),
        final(st).kind == (Kind::Image { w, h, pixels }),
        final(st).label@ == label@,
{
    *st = Wallpaper { kind: Kind::Image { w, h, pixels }, label: owned(label) };
}

/// A little-endian `i32` field.
pub open spec fn le_i32(b: Seq<u8>, o: int) -> i32 {
    (le32(b, o) as u32) as i32
}

/// The BMP row stride: 3 bytes per pixel, padded to a multiple of 4.
pub open spec fn bmp_stride(w: int) -> int {
    ((w * 3 + 3) / 4) * 4
}

/// Why a BMP is refused, if it is: too short or no "BM" magic, not 24 bits
/// per pixel, a size outside 1..=4096, or rows past the end of the data.
pub open spec fn bmp_fault(b: Seq<u8>) -> Option<&'static str> {
    let w = le_i32(b, 18) as int;
    let hs = le_i32(b, 22) as int;
    let h = if hs < 0 { -hs } else { hs };
    if b.len() < 54 || b[0] != 0x42 || b[1] != 0x4D {
        Some("not a BMP")
    } else if le16(b, 28) != 24 {
        Some("only 24-bit BMP supported")
    } else if w <= 0 || h <= 0 || w > 4096 || h > 4096 {
        Some("bad BMP dimensions")
    } else if le32(b, 10) + (h - 1) * bmp_stride(w) + w * 3 > b.len() {
        Some("BMP data truncated")
    } else {
        None
    }
}

/// The decoded pixels of an accepted BMP, top row first: a positive height
/// stores rows bottom-up, a negative one top-down; each pixel is B, G, R.
pub open spec fn bmp_pixels(b: Seq<u8>) -> Seq<u32> {
    let w = le_i32(b, 18) as int;
    let hs = le_i32(b, 22) as int;
    let h = if hs < 0 { -hs } else { hs };
    Seq::new((w * h) as nat, |i: int| {
        let row = row_of(i, w);
        let col = col_of(i, w);
        let src = if hs < 0 { row } else { h - 1 - row };
        let p = le32(b, 10) + src * bmp_stride(w) + col * 3;
        (b[p + 2] * 65536 + b[p + 1] * 256 + b[p]) as u32
    })
}

/// Load a 24-bit uncompressed BMP as the wallpaper. Returns its size.
pub fn load_bmp(st: &mut Wallpaper, bytes: &[u8], label: &str) -> (r: Result<(i32, i32), &'static str>)
    requires
        old(st).wf(),
    ensures
        final(st).wf(),
        bmp_fault(bytes@) is Some <==> r is Err,
        r is Err ==> r == Err::<(i32, i32), &'static str>(bmp_fault(bytes@)->0) && *final(st) == *old(st),
        r is Ok ==> {
            let w = le_i32(bytes@, 18);
            let hs = le_i32(bytes@, 22);
            let h = if hs < 0 { -hs } else { hs as int };
            &&& r->Ok_0 == (w, h as i32)
            &&& final(st).label@ == label@
            &&& final(st).kind matches Kind::Image { w: iw, h: ih, pixels } && iw == w && ih == h && pixels@ == bmp_pixels(bytes@)
        },
{
    let n = bytes.len();
    if n < 54 || bytes[0] != 0x42 || bytes[1] != 0x4D {
        return Err("not a BMP");
    }
    let data_off = u32_at(bytes, 10);
    let w = u32_at(bytes, 18) as u32 as i32;
    let hs = u32_at(bytes, 22) as u32 as i32;
    let bpp = u16_at(bytes, 28);
    if bpp != 24 {
        return Err("only 24-bit BMP supported");
    }
    let h: i32 = if hs < 0 { if hs == i32::MIN { i32::MIN } else { -hs } } else { hs };
    let top_down = hs < 0;
    proof {
        assert(hs == i32::MIN ==> h == i32::MIN);
        assert(hs != i32::MIN ==> h as int == (if hs < 0 { -hs } else { hs as int }));
    }
    if w <= 0 || h <= 0 || w > 4096 || h > 4096 {
        return Err("bad BMP dimensions");
    }
    let stride: u64 = (((w as u64) * 3 + 3) / 4) * 4;
    assert((h as u64 - 1) * stride <= 4096 * 12300) by (nonlinear_arith)
        requires 1 <= h <= 4096, stride <= 12300;
    let last = data_off + (h as u64 - 1) * stride + (w as u64) * 3;
    if last > n as u64 {
        return Err("BMP data truncated");
    }
    let ghost b = bytes@;
    let ghost wi = w as int;
    let ghost hi = h as int;
    assert(wi * hi <= 4096 * 4096) by (nonlinear_arith)
        requires 1 <= wi <= 4096, 1 <= hi <= 4096;
    let total = (w * h) as usize;
    let mut pixels: Vec<u32> = vec![0u32; total];
    let mut row: i32 = 0;
    while row < h
        invariant
            b == bytes@,
            n == b.len(),
            1 <= w <= 4096,
            1 <= h <= 4096,
            wi == w && hi == h,
            top_down == (hs < 0),
            hi == (if hs < 0 { -hs } else { hs as int }),
            w == le_i32(b, 18),
            hs == le_i32(b, 22),
            data_off == le32(b, 10),
            stride == bmp_stride(wi),
            data_off + (hi - 1) * stride + wi * 3 <= n,
            0 <= row <= h,
            pixels@.len() == wi * hi,
            forall|i: int| 0 <= i < row * wi ==> #[trigger] pixels@[i] == bmp_pixels(b)[i],
        decreases h - row,
    {
        let src_row: i32 = if top_down { row } else { h - 1 - row };
        assert((src_row as int) * (stride as int) <= (hi - 1) * (stride as int)) by (nonlinear_arith)
            requires 0 <= src_row <= hi - 1, stride >= 0;
        let base = data_off + (src_row as u64) * stride;
        let mut col: i32 = 0;
        while col < w
            invariant
                b == bytes@,
                n == b.len(),
                1 <= w <= 4096,
                1 <= h <= 4096,
                wi == w && hi == h,
                0 <= row < h,
                top_down == (hs < 0),
                hi == (if hs < 0 { -hs } else { hs as int }),
                w == le_i32(b, 18),
                hs == le_i32(b, 22),
                data_off == le32(b, 10),
                stride == bmp_stride(wi),
                src_row == (if top_down { row as int } else { hi - 1 - row }),
                base == data_off + src_row * stride,
                base + wi * 3 <= n,
                0 <= col <= w,
                pixels@.len() == wi * hi,
                forall|i: int| 0 <= i < row * wi + col ==> #[trigger] pixels@[i] == bmp_pixels(b)[i],
            decreases w - col,
        {
            let p = (base + (col as u64) * 3) as usize;
            let bb = bytes[p];
            let g = bytes[p + 1];
            let r = bytes[p + 2];
            assert((row as int) * wi + col < wi * hi && wi * hi <= 4096 * 4096) by (nonlinear_arith)
                requires 0 <= row < hi, 0 <= col < wi, wi <= 4096, hi <= 4096;
            let idx = (row * w + col) as usize;
            let c = rgb(r, g, bb);
            proof {
                lemma_index(col as int, row as int, wi);
                assert(c == bmp_pixels(b)[idx as int]);
            }
            pixels.set(idx, c);
            col = col + 1;
        }
        assert((row as int + 1) * wi == (row as int) * wi + wi) by (nonlinear_arith);
        row = row + 1;
    }
    assert(pixels@ =~= bmp_pixels(bytes@)) by {
        assert(hi * wi == wi * hi) by (nonlinear_arith);
    }
    let label_s = owned(label);
    *st = Wallpaper { kind: Kind::Image { w, h, pixels }, label: label_s };
    Ok((w, h))
}

/// The stretched image pixel shown at canvas pixel `i` of a `cw`-wide,
/// `ch`-high canvas (nearest neighbour).
pub open spec fn stretched(img: Seq<u32>, w: int, h: int, cw: int, ch: int, i: int) -> u32 {
    let x = col_of(i, cw);
    let y = row_of(i, cw);
    let sy = crate::wm::clamp(y * h / ch, 0, h - 1);
    let sx = crate::wm::clamp(x * w / cw, 0, w - 1);
    img[sy * w + sx]
}

/// The buffer `p` of a `cw` by `ch` canvas after painting wallpaper `st`
/// for `workspace` in theme `th` (see [`paint`]).
pub open spec fn painted(st: Wallpaper, p: Seq<u32>, th: Theme, workspace: u8, cw: int, ch: int) -> Seq<u32> {
    match st.kind {
        Kind::Theme => {
            let top = shifted(th.desktop_top, (workspace * 10) as u32);
            let bottom = shifted(th.desktop_bottom, (workspace * 10) as u32);
            if th.gradient {
                Seq::new(p.len(), |i: int|
                    if i < cw * ch { grad_color(top, bottom, row_of(i, cw), if ch == 0 { 1 } else { ch }) } else { p[i] })
            } else {
                filled(p, cw, 0, 0, cw, ch, top)
            }
        },
        Kind::Pattern(pat) => pattern_pixels(p, pat, th, cw, ch),
        Kind::Image { w, h, pixels } => Seq::new(p.len(), |i: int|
            if i < cw * ch { stretched(pixels@, w as int, h as int, cw, ch, i) } else { p[i] }),
    }
}

/// Render the current wallpaper into `canvas` (full screen). The theme
/// wallpaper is the theme's desktop gradient (or flat colour), tinted by 10
/// per channel for each workspace; an image is stretched to the canvas.
pub fn paint(st: &Wallpaper, canvas: &mut Canvas, th: &Theme, workspace: u8)
    requires
        st.wf(),
        old(canvas).wf(),
        old(canvas).width <= 0x4000,
        old(canvas).height <= 0x4000,
    ensures
        final(canvas).wf(),
        final(canvas).width == old(canvas).width,
        final(canvas).height == old(canvas).height,
        final(canvas).pixels@.len() == old(canvas).pixels@.len(),
        st.kind is Theme ==> {
            let cw = old(canvas).width as int;
            let ch = old(canvas).height as int;
            let top = shifted(th.desktop_top, (workspace * 10) as u32);
            let bottom = shifted(th.desktop_bottom, (workspace * 10) as u32);
            final(canvas).pixels@ == if th.gradient {
                Seq::new(old(canvas).pixels@.len(), |i: int|
                    if i < cw * ch { grad_color(top, bottom, row_of(i, cw), if ch == 0 { 1 } else { ch }) } else { old(canvas).pixels@[i] })
            } else {
                filled(old(canvas).pixels@, cw, 0, 0, cw, ch, top)
            }
        },
        final(canvas).pixels@ == painted(*st, old(canvas).pixels@, *th, workspace, old(canvas).width as int, old(canvas).height as int),
        st.kind matches Kind::Pattern(pat) ==> final(canvas).pixels@ == pattern_pixels(old(canvas).pixels@, pat, *th,
            old(canvas).width as int, old(canvas).height as int),
        st.kind matches Kind::Image { w, h, pixels } ==> final(canvas).pixels@ == Seq::new(old(canvas).pixels@.len(), |i: int|
            if i < old(canvas).width * old(canvas).height {
                stretched(pixels@, w as int, h as int, old(canvas).width as int, old(canvas).height as int, i)
            } else {
                old(canvas).pixels@[i]
            }),
{
    let cw = canvas.width as i32;
    let ch = canvas.height as i32;
    match &st.kind {
        Kind::Theme => {
            let tint = workspace as u32 * 10;
            let top = shift(th.desktop_top, tint);
            let bottom = shift(th.desktop_bottom, tint);
            if th.gradient {
                canvas.fill_gradient(top, bottom);
            } else {
                canvas.fill_rect(0, 0, cw, ch, top);
                proof {
                    let p0 = old(canvas).pixels@;
                    assert(canvas.pixels@ =~= filled(p0, cw as int, 0, 0, cw as int, ch as int, top));
                }
            }
        },
        Kind::Pattern(p) => {
            paint_pattern(canvas, *p, th, cw, ch);
        },
        Kind::Image { w, h, pixels } => {
            let iw = *w;
            let ih = *h;
            let ghost p0 = canvas.pixels@;
            let ghost wd = canvas.width as int;
            let ghost ht = canvas.height as int;
            let _n = canvas.pixels.len();
            let mut y: i32 = 0;
            while y < ch
                invariant
                    canvas.wf(),
                    canvas.width == wd && canvas.height == ht,
                    cw == wd && ch == ht,
                    wd <= 0x4000 && ht <= 0x4000,
                    1 <= iw <= 4096 && 1 <= ih <= 4096,
                    pixels@.len() == iw * ih,
                    p0.len() == canvas.pixels@.len(),
                    p0.len() <= usize::MAX,
                    0 <= y <= ch,
                    canvas.pixels@ == Seq::new(p0.len(), |i: int|
                        if i < y * wd { stretched(pixels@, iw as int, ih as int, wd, ht, i) } else { p0[i] }),
                decreases ch - y,
            {
                assert(0 <= (y as int) * (ih as int) <= 0x4000 * 4096) by (nonlinear_arith)
                    requires 0 <= y < 0x4000, 1 <= ih <= 4096;
                let sy0 = y * ih / ch;
                let sy = if sy0 < 0 { 0 } else if sy0 > ih - 1 { ih - 1 } else { sy0 };
                let mut x: i32 = 0;
                while x < cw
                    invariant
                        canvas.wf(),
                        canvas.width == wd && canvas.height == ht,
                        cw == wd && ch == ht,
                        wd <= 0x4000 && ht <= 0x4000,
                        1 <= iw <= 4096 && 1 <= ih <= 4096,
                        pixels@.len() == iw * ih,
                        p0.len() == canvas.pixels@.len(),
                        0 <= y < ch,
                        sy == crate::wm::clamp((y as int) * (ih as int) / (ch as int), 0, ih - 1),
                        0 <= x <= cw,
                        canvas.pixels@ == Seq::new(p0.len(), |i: int|
                            if i < y * wd + x { stretched(pixels@, iw as int, ih as int, wd, ht, i) } else { p0[i] }),
                    decreases cw - x,
                {
                    assert(0 <= (x as int) * (iw as int) <= 0x4000 * 4096) by (nonlinear_arith)
                        requires 0 <= x < 0x4000, 1 <= iw <= 4096;
                    let sx0 = x * iw / cw;
                    let sx = if sx0 < 0 { 0 } else if sx0 > iw - 1 { iw - 1 } else { sx0 };
                    assert(0 <= (sy as int) * (iw as int) + (sx as int) < (iw as int) * (ih as int) <= 4096 * 4096) by (nonlinear_arith)
                        requires 0 <= sy < ih, 0 <= sx < iw, iw <= 4096, ih <= 4096;
                    let c = pixels[(sy * iw + sx) as usize];
                    assert((y as int) * wd + x < wd * ht) by (nonlinear_arith)
                        requires 0 <= y < ht, 0 <= x < wd;
                    canvas.put(x as usize, y as usize, c);
                    proof {
                        lemma_index(x as int, y as int, wd);
                        let k = (y as int) * wd + x;
                        assert(c == stretched(pixels@, iw as int, ih as int, wd, ht, k));
                        assert(canvas.pixels@ =~= Seq::new(p0.len(), |i: int|
                            if i < y * wd + x + 1 { stretched(pixels@, iw as int, ih as int, wd, ht, i) } else { p0[i] }));
                    }
                    x = x + 1;
                }
                assert((y as int + 1) * wd == (y as int) * wd + wd) by (nonlinear_arith);
                y = y + 1;
            }
            assert(ht * wd == wd * ht) by (nonlinear_arith);
            assert(canvas.pixels@ =~= Seq::new(p0.len(), |i: int|
                if i < wd * ht { stretched(pixels@, iw as int, ih as int, wd, ht, i) } else { p0[i] }));
        },
    }
}

/// The first `n` one-pixel rows of the band pattern: rows alternate
/// between `base` and `alt` every 20 rows.
pub open spec fn band_rows(p: Seq<u32>, cw: int, ch: int, base: u32, alt: u32, n: int) -> Seq<u32>
    decreases n,
{
    if n <= 0 {
        p
    } else {
        let y = n - 1;
        let c = if (y / 20) % 2 == 0 { base } else { alt };
        crate::gfx::rect_filled(band_rows(p, cw, ch, base, alt, n - 1), cw, ch, 0, y, cw, 1, c)
    }
}

/// The first `n` grid columns: one-pixel vertical lines every 40 pixels.
pub open spec fn grid_cols(p: Seq<u32>, cw: int, ch: int, line: u32, n: int) -> Seq<u32>
    decreases n,
{
    if n <= 0 {
        p
    } else {
        crate::gfx::rect_filled(grid_cols(p, cw, ch, line, n - 1), cw, ch, 40 * (n - 1), 0, 1, ch, line)
    }
}

/// The first `n` grid rows: one-pixel horizontal lines every 40 pixels.
pub open spec fn grid_rows(p: Seq<u32>, cw: int, ch: int, line: u32, n: int) -> Seq<u32>
    decreases n,
{
    if n <= 0 {
        p
    } else {
        crate::gfx::rect_filled(grid_rows(p, cw, ch, line, n - 1), cw, ch, 0, 40 * (n - 1), cw, 1, line)
    }
}

/// How many of the positions 20, 64, 108, ... lie below `limit`.
pub open spec fn dot_count(limit: int) -> int {
    if limit <= 20 { 0 } else { (limit - 20 + 43) / 44 }
}

/// The first `n` dots of the row centred at `cy`: filled 6-pixel discs
/// centred at x = 20, 64, 108, ...
pub open spec fn dot_row(p: Seq<u32>, cw: int, ch: int, cy: int, dot: u32, n: int) -> Seq<u32>
    decreases n,
{
    if n <= 0 {
        p
    } else {
        let cx = 20 + 44 * (n - 1);
        crate::gfx::ellipse_rows(dot_row(p, cw, ch, cy, dot, n - 1), cw, ch, cx - 3, cy - 3, 6, 6, dot, true, 7)
    }
}

/// The first `n` rows of dots, the rows centred at y = 20, 64, 108, ...
pub open spec fn dot_rows(p: Seq<u32>, cw: int, ch: int, dot: u32, n: int) -> Seq<u32>
    decreases n,
{
    if n <= 0 {
        p
    } else {
        dot_row(dot_rows(p, cw, ch, dot, n - 1), cw, ch, 20 + 44 * (n - 1), dot, dot_count(cw))
    }
}

/// The buffer `q` of a `cw` by `ch` canvas after painting built-in pattern
/// `pat` in theme `th`.
pub open spec fn pattern_pixels(q: Seq<u32>, pat: u8, th: Theme, cw: int, ch: int) -> Seq<u32> {
    let base = th.desktop_top;
    if pat == 0 {
        band_rows(q, cw, ch, base, shifted(base, 22), ch)
    } else if pat == 1 {
        let line = shifted(base, 30);
        let cols = grid_cols(crate::gfx::rect_filled(q, cw, ch, 0, 0, cw, ch, base), cw, ch, line, (cw + 39) / 40);
        grid_rows(cols, cw, ch, line, (ch + 39) / 40)
    } else if pat == 2 {
        dot_rows(crate::gfx::rect_filled(q, cw, ch, 0, 0, cw, ch, base), cw, ch, th.accent, dot_count(ch))
    } else {
        Seq::new(q.len(), |i: int|
            if i < cw * ch { grad_color(th.desktop_bottom, th.accent, row_of(i, cw), if ch == 0 { 1 } else { ch }) } else { q[i] })
    }
}

/// Paint built-in pattern `p`: 0 horizontal bands, 1 a grid, 2 dots, any
/// other an "aurora" gradient toward the accent colour.
fn paint_pattern(canvas: &mut Canvas, p: u8, th: &Theme, cw: i32, ch: i32)
    requires
        old(canvas).wf(),
        old(canvas).width <= 0x4000,
        old(canvas).height <= 0x4000,
        cw == old(canvas).width,
        ch == old(canvas).height,
    ensures
        final(canvas).wf(),
        final(canvas).width == old(canvas).width,
        final(canvas).height == old(canvas).height,
        final(canvas).pixels@.len() == old(canvas).pixels@.len(),
        final(canvas).pixels@ == pattern_pixels(old(canvas).pixels@, p, *th, cw as int, ch as int),
{
    let base = th.desktop_top;
    let alt = shift(base, 22);
    let ghost wd = canvas.width;
    let ghost ht = canvas.height;
    let ghost len = canvas.pixels@.len();
    let ghost p0 = canvas.pixels@;
    if p == 0 {
        let mut y: i32 = 0;
        while y < ch
            invariant
                canvas.wf(), canvas.width == wd, canvas.height == ht, canvas.pixels@.len() == len,
                cw == wd, ch == ht, wd <= 0x4000, ht <= 0x4000, 0 <= y <= ch,
                canvas.pixels@ == band_rows(p0, wd as int, ht as int, base, alt, y as int),
            decreases ch - y,
        {
            let q = y / 20;
            assert(((q & 1) == 0) == (q % 2 == 0)) by (bit_vector)
                requires q >= 0;
            let band = ((y / 20) & 1) == 0;
            let c = if band { base } else { alt };
            canvas.fill_rect(0, y, cw, 1, c);
            y = y + 1;
        }
    } else if p == 1 {
        canvas.fill_rect(0, 0, cw, ch, base);
        let ghost filled0 = canvas.pixels@;
        let line = shift(base, 30);
        let mut x: i32 = 0;
        let ghost mut k: int = 0;
        while x < cw
            invariant
                canvas.wf(), canvas.width == wd, canvas.height == ht, canvas.pixels@.len() == len,
                cw == wd, ch == ht, wd <= 0x4000, ht <= 0x4000, 0 <= x <= cw + 40,
                x == 40 * k, 0 <= k, k == 0 || 40 * (k - 1) < cw,
                canvas.pixels@ == grid_cols(filled0, wd as int, ht as int, line, k),
            decreases cw + 40 - x,
        {
            canvas.fill_rect(x, 0, 1, ch, line);
            x = x + 40;
            proof { k = k + 1; }
        }
        assert(k == (cw + 39) / 40);
        let ghost cols = canvas.pixels@;
        let mut y: i32 = 0;
        let ghost mut j: int = 0;
        while y < ch
            invariant
                canvas.wf(), canvas.width == wd, canvas.height == ht, canvas.pixels@.len() == len,
                cw == wd, ch == ht, wd <= 0x4000, ht <= 0x4000, 0 <= y <= ch + 40,
                y == 40 * j, 0 <= j, j == 0 || 40 * (j - 1) < ch,
                canvas.pixels@ == grid_rows(cols, wd as int, ht as int, line, j),
            decreases ch + 40 - y,
        {
            canvas.fill_rect(0, y, cw, 1, line);
            y = y + 40;
            proof { j = j + 1; }
        }
        assert(j == (ch + 39) / 40);
    } else if p == 2 {
        canvas.fill_rect(0, 0, cw, ch, base);
        let ghost filled0 = canvas.pixels@;
        let dot = th.accent;
        let mut y: i32 = 20;
        let ghost mut j: int = 0;
        while y < ch
            invariant
                canvas.wf(), canvas.width == wd, canvas.height == ht, canvas.pixels@.len() == len,
                cw == wd, ch == ht, wd <= 0x4000, ht <= 0x4000, 0 <= y <= ch + 44,
                y == 20 + 44 * j, 0 <= j, j == 0 || 20 + 44 * (j - 1) < ch,
                dot == th.accent,
                canvas.pixels@ == dot_rows(filled0, wd as int, ht as int, dot, j),
            decreases ch + 44 - y,
        {
            let ghost row0 = canvas.pixels@;
            let mut x: i32 = 20;
            let ghost mut k: int = 0;
            while x < cw
                invariant
                    canvas.wf(), canvas.width == wd, canvas.height == ht, canvas.pixels@.len() == len,
                    cw == wd, ch == ht, wd <= 0x4000, ht <= 0x4000, 0 <= x <= cw + 44, 0 <= y < ch,
                    x == 20 + 44 * k, 0 <= k, k == 0 || 20 + 44 * (k - 1) < cw,
                    canvas.pixels@ == dot_row(row0, wd as int, ht as int, y as int, dot, k),
                decreases cw + 44 - x,
            {
                assert((6i32 / 2) * (6i32 / 2) * ((6i32 / 2) * (6i32 / 2)) <= i64::MAX) by (nonlinear_arith);
                canvas.ellipse(x - 3, y - 3, 6, 6, dot, true);
                x = x + 44;
                proof { k = k + 1; }
            }
            assert(k == dot_count(cw as int));
            y = y + 44;
            proof { j = j + 1; }
        }
        assert(j == dot_count(ch as int));
    } else {
        canvas.fill_gradient(th.desktop_bottom, th.accent);
    }
}

} // verus!
