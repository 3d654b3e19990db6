//! Screen saver: the configuration (which saver, on/off, idle timeout) and
//! the built-in savers (Starfield, Mystify, 3D Pipes, Marquee, Bouncing,
//! Blank), each drawing a full-screen frame for a frame counter.

use vstd::prelude::*;
use crate::gfx::{rgb, rect_filled, text_drawn, Canvas};
use crate::text::str_eq;

verus! {

/// Idle ticks before the saver starts (PIT ~18.2 Hz: about 12 s).
pub const IDLE_TIMEOUT_TICKS: u64 = 216;

/// A saver.
#[derive(Clone, Copy, PartialEq, Eq, Debug, Structural)]
pub enum Saver {
    Starfield,
    Mystify,
    Pipes,
    Marquee,
    Bouncing,
    Blank,
}

/// The savers' names, in order.
pub const NAMES: [&'static str; 6] = ["starfield", "mystify", "pipes", "marquee", "bouncing", "blank"];

/// The name of a saver.
pub open spec fn saver_name(s: Saver) -> Seq<char> {
    match s {
        Saver::Starfield => "starfield"@,
        Saver::Mystify => "mystify"@,
        Saver::Pipes => "pipes"@,
        Saver::Marquee => "marquee"@,
        Saver::Bouncing => "bouncing"@,
        Saver::Blank => "blank"@,
    }
}

/// The saver a name stands for.
pub open spec fn saver_named(n: Seq<char>) -> Option<Saver> {
    if n == "starfield"@ { Some(Saver::Starfield) } else if n == "mystify"@ { Some(Saver::Mystify) }
    else if n == "pipes"@ { Some(Saver::Pipes) } else if n == "marquee"@ { Some(Saver::Marquee) }
    else if n == "bouncing"@ { Some(Saver::Bouncing) } else if n == "blank"@ { Some(Saver::Blank) } else { None }
}

/// The screensaver configuration.
#[derive(Clone, Copy, PartialEq, Eq, Debug, Structural)]
pub struct Config {
    pub saver: Saver,
    pub enabled: bool,
    pub timeout: u64,
}

impl Config {
    /// Starfield, enabled, the default timeout.
    pub fn new() -> (c: Config)
        ensures
            c == (Config { saver: Saver::Starfield, enabled: true, timeout: IDLE_TIMEOUT_TICKS }),
    {
        Config { saver: Saver::Starfield, enabled: true, timeout: IDLE_TIMEOUT_TICKS }
    }

    /// Choose a saver by name (enabling it), or "off"/"none" to disable;
    /// `false` for an unknown name (nothing changes).
    pub fn set(&mut self, name: &str) -> (ok: bool)
        ensures
            match saver_named(name@) {
                Some(s) => ok && *final(self) == (Config { saver: s, enabled: true, ..*old(self) }),
                None => if name@ == "off"@ || name@ == "none"@ {
                    ok && *final(self) == (Config { enabled: false, ..*old(self) })
                } else {
                    !ok && *final(self) == *old(self)
                },
            },
    {
        let s = if str_eq(name, "starfield") {
            Saver::Starfield
        } else if str_eq(name, "mystify") {
            Saver::Mystify
        } else if str_eq(name, "pipes") {
            Saver::Pipes
        } else if str_eq(name, "marquee") {
            Saver::Marquee
        } else if str_eq(name, "bouncing") {
            Saver::Bouncing
        } else if str_eq(name, "blank") {
            Saver::Blank
        } else if str_eq(name, "off") || str_eq(name, "none") {
            self.enabled = false;
            return true;
        } else {
            return false;
        };
        self.saver = s;
        self.enabled = true;
        true
    }

    /// The current saver's name, or "off".
    pub fn name(&self) -> (n: &'static str)
        ensures
            !self.enabled ==> n@ == "off"@,
            self.enabled ==> n@ == saver_name(self.saver),
    {
        if !self.enabled {
            return "off";
        }
        match self.saver {
            Saver::Starfield => "starfield",
            Saver::Mystify => "mystify",
            Saver::Pipes => "pipes",
            Saver::Marquee => "marquee",
            Saver::Bouncing => "bouncing",
            Saver::Blank => "blank",
        }
    }

    /// Whether a saver runs at all.
    pub fn enabled(&self) -> (b: bool)
        ensures
            b == self.enabled,
    {
        self.enabled
    }

    /// The idle timeout in ticks.
    pub fn timeout(&self) -> (t: u64)
        ensures
            t == self.timeout,
    {
        self.timeout
    }
}

/// A 64-bit mixer: `x ^= x >> 33; x *= 0xff51afd7ed558ccd (wrapping);
/// x ^= x >> 33`.
pub open spec fn hash_spec(x: u64) -> u64 {
    let a = x ^ (x >> 33u64);
    let b = a.wrapping_mul(0xff51afd7ed558ccd);
    b ^ (b >> 33u64)
}

/// The mixer (see [`hash_spec`]).
pub fn hash(x: u64) -> (r: u64)
    ensures
        r == hash_spec(x),
{
    let a = x ^ (x >> 33);
    let b = a.wrapping_mul(0xff51afd7ed558ccd);
    b ^ (b >> 33)
}

/// A ping-pong position in `0..=range` at `speed` for `frame`.
pub open spec fn bounce_spec(frame: u64, range: i32, speed: i32) -> int {
    if range <= 0 {
        0
    } else {
        let t = (frame * speed) % (2 * range);
        if t < range { t } else { 2 * range - t }
    }
}

/// Ping-pong a value in `0..=range` at `speed`.
pub fn bounce(frame: u64, range: i32, speed: i32) -> (r: i32)
    requires
        0 <= speed <= 16,
        frame < 0x2_0000_0000_0000,
        range < 0x4000_0000,
    ensures
        r == bounce_spec(frame, range, speed),
        range > 0 ==> 0 <= r <= range,
        range <= 0 ==> r == 0,
{
    if range <= 0 {
        return 0;
    }
    let period = (2 * range as i64) as u64;
    assert(frame * speed <= 0x20_0000_0000_0000) by (nonlinear_arith)
        requires frame < 0x2_0000_0000_0000, 0 <= speed <= 16;
    let t = ((frame * speed as u64) % period) as i32;
    if t < range { t } else { 2 * range - t }
}

/// The cosine table (x100) at 16 steps.
pub open spec fn cos_tab(i: int) -> int {
    if i == 0 { 100 } else if i == 1 { 92 } else if i == 2 { 71 } else if i == 3 { 38 } else if i == 4 { 0 }
    else if i == 5 { -38 } else if i == 6 { -71 } else if i == 7 { -92 } else if i == 8 { -100 }
    else if i == 9 { -92 } else if i == 10 { -71 } else if i == 11 { -38 } else if i == 12 { 0 }
    else if i == 13 { 38 } else if i == 14 { 71 } else { 92 }
}

/// Unit vector x100 for an angle in 0..628 (radians x100), from a
/// 16-step table: `(cos[i], cos[(i + 12) % 16])` with `i = (ang / 39) % 16`.
pub fn unit(ang: i32) -> (r: (i32, i32))
    requires
        0 <= ang,
    ensures
        r.0 == cos_tab((ang / 39) % 16) && r.1 == cos_tab(((ang / 39) % 16 + 12) % 16),
        -100 <= r.0 <= 100 && -100 <= r.1 <= 100,
{
    let tab: [i32; 16] = [100, 92, 71, 38, 0, -38, -71, -92, -100, -92, -71, -38, 0, 38, 71, 92];
    let idx = ((ang / 39) % 16) as usize;
    let sidx = (idx + 12) % 16;
    (tab[idx], tab[sidx])
}

/// The canvas may be drawn on at screen sizes.
pub open spec fn screen_ok(c: &Canvas) -> bool {
    c.wf() && c.width <= 0x4000 && c.height <= 0x4000
}

/// `after` is `before` drawn over: same size, still well formed.
pub open spec fn drawn(before: &Canvas, after: &Canvas) -> bool {
    &&& after.width == before.width && after.height == before.height
    &&& after.pixels@.len() == before.pixels@.len()
    &&& screen_ok(after)
}

/// `v / 100` rounded toward zero.
pub open spec fn tdiv100(v: int) -> int {
    if v >= 0 { v / 100 } else { -((-v) / 100) }
}

fn div100(v: i32) -> (r: i32)
    requires
        -40000 <= v <= 40000,
    ensures
        r == tdiv100(v as int),
{
    if v >= 0 { v / 100 } else { -((-v) / 100) }
}

/// How far star `i` has flown out from the centre at `frame` (0..400).
pub open spec fn star_dist(frame: u64, i: u64) -> int {
    let hx = hash_spec(i);
    let speed = 2 + (hx >> 8u64) % 4;
    (frame * speed + (hx >> 16u64) % 400) % 400
}

/// The starfield after the first `n` of its 220 stars: star `i` flies out
/// from the centre along a table direction; when on screen it is a grey
/// square, brighter and (past 200) larger the farther out it is.
pub open spec fn star_pixels(p: Seq<u32>, w: int, h: int, frame: u64, n: int) -> Seq<u32>
    decreases n,
{
    if n <= 0 {
        p
    } else {
        let q = star_pixels(p, w, h, frame, n - 1);
        let i = (n - 1) as u64;
        let idx = ((hash_spec(i) % 628) / 39) % 16;
        let dist = star_dist(frame, i);
        let x = w / 2 + tdiv100(cos_tab(idx as int) * dist);
        let y = h / 2 + tdiv100(cos_tab(((idx + 12) % 16) as int) * dist);
        if 0 <= x < w && 0 <= y < h {
            let bv = 120 + dist / 4;
            let b = if bv < 255 { bv } else { 255 };
            let sz = 1 + dist / 200;
            rect_filled(q, w, h, x, y, sz, sz, (b * 65536 + b * 256 + b) as u32)
        } else {
            q
        }
    }
}

fn starfield(canvas: &mut Canvas, frame: u64, w: i32, h: i32)
    requires
        screen_ok(old(canvas)),
        w == old(canvas).width && h == old(canvas).height,
        frame < 0x1_0000_0000_0000,
    ensures
        drawn(old(canvas), final(canvas)),
        final(canvas).pixels@ == star_pixels(old(canvas).pixels@, w as int, h as int, frame, 220),
{
    let (cx, cy) = (w / 2, h / 2);
    let mut i: u64 = 0;
    while i < 220
        invariant
            drawn(old(canvas), canvas),
            w == canvas.width && h == canvas.height,
            cx == w / 2 && cy == h / 2,
            frame < 0x1_0000_0000_0000,
            i <= 220,
            canvas.pixels@ == star_pixels(old(canvas).pixels@, w as int, h as int, frame, i as int),
        decreases 220 - i,
    {
        let hx = hash(i);
        let ang = (hx % 628) as i32;
        let speed = 2 + (hx >> 8) % 4;
        assert(frame * speed <= 0x10_0000_0000_0000) by (nonlinear_arith)
            requires frame < 0x1_0000_0000_0000, speed <= 5;
        let dist = ((frame * speed + (hx >> 16) % 400) % 400) as i32;
        let (sx, sy) = unit(ang);
        assert(-40000 <= sx * dist <= 40000 && -40000 <= sy * dist <= 40000) by (nonlinear_arith)
            requires -100 <= sx <= 100, -100 <= sy <= 100, 0 <= dist < 400;
        let x = cx + div100(sx * dist);
        let y = cy + div100(sy * dist);
        if x >= 0 && x < w && y >= 0 && y < h {
            let bv = 120 + dist / 4;
            let b = (if bv < 255 { bv } else { 255 }) as u8;
            let c = rgb(b, b, b);
            let sz = 1 + dist / 200;
            canvas.fill_rect(x, y, sz, sz, c);
        }
        i = i + 1;
    }
}

/// Corner `k` of mystify polygon `poly`: each coordinate bounces within the
/// screen less a 10-pixel margin, with phase and speed from hashes of the
/// corner's number.
pub open spec fn mystify_point(frame: u64, w: int, h: int, poly: int, k: int) -> (int, int) {
    let seed = (poly * 4 + k) as u64;
    let px = bounce_spec((frame + hash_spec(seed) % 200) as u64, (w - 20) as i32, (hash_spec(seed) % 3 + 2) as i32) + 10;
    let py = bounce_spec((frame + hash_spec((seed + 99) as u64) % 200) as u64, (h - 20) as i32,
        (hash_spec((seed + 1) as u64) % 3 + 2) as i32) + 10;
    (px, py)
}

/// The colour of mystify polygon `poly`: cyan, then pink.
pub open spec fn mystify_color(poly: int) -> u32 {
    if poly == 0 { 0x4ED1FFu32 } else { 0xFF6EC7u32 }
}

/// The first `n` edges of mystify polygon `poly`: edge `k` joins corner `k`
/// to corner `k + 1` (the last one back to the first).
pub open spec fn mystify_edges(p: Seq<u32>, w: int, h: int, frame: u64, poly: int, n: int) -> Seq<u32>
    decreases n,
{
    if n <= 0 {
        p
    } else {
        let q = mystify_edges(p, w, h, frame, poly, n - 1);
        let a = mystify_point(frame, w, h, poly, n - 1);
        let b = mystify_point(frame, w, h, poly, n % 4);
        crate::gfx::line_drawn(q, w, h, a.0, a.1, b.0, b.1, mystify_color(poly))
    }
}

/// The first `n` of the two mystify polygons, outlined.
pub open spec fn mystify_pixels(p: Seq<u32>, w: int, h: int, frame: u64, n: int) -> Seq<u32>
    decreases n,
{
    if n <= 0 {
        p
    } else {
        mystify_edges(mystify_pixels(p, w, h, frame, n - 1), w, h, frame, n - 1, 4)
    }
}

#[verifier::rlimit(40)]
fn mystify(canvas: &mut Canvas, frame: u64, w: i32, h: i32)
    requires
        screen_ok(old(canvas)),
        w == old(canvas).width && h == old(canvas).height,
        frame < 0x1_0000_0000_0000,
    ensures
        drawn(old(canvas), final(canvas)),
        final(canvas).pixels@ == mystify_pixels(old(canvas).pixels@, w as int, h as int, frame, 2),
{
    let mut poly: u64 = 0;
    while poly < 2
        invariant
            drawn(old(canvas), canvas),
            w == canvas.width && h == canvas.height,
            frame < 0x1_0000_0000_0000,
            poly <= 2,
            canvas.pixels@ == mystify_pixels(old(canvas).pixels@, w as int, h as int, frame, poly as int),
        decreases 2 - poly,
    {
        let ghost start = canvas.pixels@;
        let color = if poly == 0 { rgb(0x4E, 0xD1, 0xFF) } else { rgb(0xFF, 0x6E, 0xC7) };
        assert(color == mystify_color(poly as int));
        let mut pts: [(i32, i32); 4] = [(0, 0); 4];
        let mut k: u64 = 0;
        while k < 4
            invariant
                k <= 4,
                poly < 2,
                w == canvas.width && h == canvas.height,
                w <= 0x4000 && h <= 0x4000,
                frame < 0x1_0000_0000_0000,
                forall|j: int| 0 <= j < 4 ==> -0x4000 <= #[trigger] pts@[j].0 <= 0x4000 && -0x4000 <= pts@[j].1 <= 0x4000,
                forall|j: int| 0 <= j < k ==> (#[trigger] pts@[j].0 as int, pts@[j].1 as int)
                    == mystify_point(frame, w as int, h as int, poly as int, j),
            decreases 4 - k,
        {
            let seed = poly * 4 + k;
            let px = bounce(frame + hash(seed) % 200, w - 20, (hash(seed) % 3 + 2) as i32) + 10;
            let py = bounce(frame + hash(seed + 99) % 200, h - 20, (hash(seed + 1) % 3 + 2) as i32) + 10;
            let ghost old_pts = pts@;
            assert((px as int, py as int) == mystify_point(frame, w as int, h as int, poly as int, k as int));
            pts[k as usize] = (px, py);
            assert forall|j: int| 0 <= j < 4 implies -0x4000 <= #[trigger] pts@[j].0 <= 0x4000 && -0x4000 <= pts@[j].1 <= 0x4000 by {
                if j != k { assert(pts@[j] == old_pts[j]); }
            }
            assert forall|j: int| 0 <= j < k + 1 implies (#[trigger] pts@[j].0 as int, pts@[j].1 as int)
                == mystify_point(frame, w as int, h as int, poly as int, j) by {
                if j != k { assert(pts@[j] == old_pts[j]); } else { assert(pts@[j] == (px, py)); }
            }
            k = k + 1;
        }
        let mut k: usize = 0;
        while k < 4
            invariant
                drawn(old(canvas), canvas),
                w == canvas.width && h == canvas.height,
                frame < 0x1_0000_0000_0000,
                forall|j: int| 0 <= j < 4 ==> -0x4000 <= #[trigger] pts@[j].0 <= 0x4000 && -0x4000 <= pts@[j].1 <= 0x4000,
                forall|j: int| 0 <= j < 4 ==> (#[trigger] pts@[j].0 as int, pts@[j].1 as int)
                    == mystify_point(frame, w as int, h as int, poly as int, j),
                k <= 4,
                poly < 2,
                color == mystify_color(poly as int),
                canvas.pixels@ == mystify_edges(start, w as int, h as int, frame, poly as int, k as int),
            decreases 4 - k,
        {
            let (x0, y0) = pts[k];
            let (x1, y1) = pts[(k + 1) % 4];
            canvas.draw_line(x0, y0, x1, y1, color);
            k = k + 1;
        }
        poly = poly + 1;
    }
}

/// `v` clamped to `0 ..= hi`.
pub open spec fn clamp_to(v: int, hi: int) -> int {
    if v < 0 { 0 } else if v > hi { hi } else { v }
}

/// The pipe head after `n` steps, as (cell column, cell row, direction):
/// it starts in the middle cell heading right (direction 0, then down, left,
/// up), turns every fifth step by one to three quarter turns (from the hash
/// of the step) and stays within the grid of 24-pixel cells.
pub open spec fn pipe_state(w: int, h: int, n: int) -> (int, int, int)
    decreases n,
{
    if n <= 0 {
        (w / 2 / 24, h / 2 / 24, 0)
    } else {
        let st = pipe_state(w, h, n - 1);
        let s = n - 1;
        let seed = hash_spec(s as u64);
        let dir = if s % 5 == 0 { (st.2 + 1 + seed % 3) % 4 } else { st.2 };
        let dx: int = if dir == 0 { 1 } else if dir == 2 { -1 } else { 0 };
        let dy: int = if dir == 1 { 1 } else if dir == 3 { -1 } else { 0 };
        (clamp_to(st.0 + dx, w / 24 - 1), clamp_to(st.1 + dy, h / 24 - 1), dir)
    }
}

/// The first `n` pipe segments: after step `s` a 12-pixel disc in the
/// middle of the head's cell, its colour shifting with `s`.
pub open spec fn pipe_pixels(p: Seq<u32>, w: int, h: int, n: int) -> Seq<u32>
    decreases n,
{
    if n <= 0 {
        p
    } else {
        let q = pipe_pixels(p, w, h, n - 1);
        let st = pipe_state(w, h, n);
        let hue = (((n - 1) * 6) % 256) as u8;
        let c = (0x40 + hue / 2) * 65536 + 0xC0 * 256 + (0x80 + hue / 3);
        crate::gfx::ellipse_rows(q, w, h, st.0 * 24 + 6, st.1 * 24 + 6, 12, 12, c as u32, true, 13)
    }
}

fn pipes(canvas: &mut Canvas, frame: u64, w: i32, h: i32)
    requires
        screen_ok(old(canvas)),
        w == old(canvas).width && h == old(canvas).height,
        w >= 24 && h >= 24,
    ensures
        drawn(old(canvas), final(canvas)),
        final(canvas).pixels@ == pipe_pixels(old(canvas).pixels@, w as int, h as int, (frame % 400) as int),
{
    let cell: i32 = 24;
    let steps = (frame % 400) as i32;
    let mut x = w / 2 / cell;
    let mut y = h / 2 / cell;
    let mut dir: i32 = 0;
    let mut s: i32 = 0;
    while s < steps
        invariant
            drawn(old(canvas), canvas),
            w == canvas.width && h == canvas.height,
            w >= 24 && h >= 24,
            0 <= s <= steps < 400,
            0 <= dir < 4,
            0 <= x <= w / cell && 0 <= y <= h / cell,
            cell == 24,
            steps == frame % 400,
            (x as int, y as int, dir as int) == pipe_state(w as int, h as int, s as int),
            canvas.pixels@ == pipe_pixels(old(canvas).pixels@, w as int, h as int, s as int),
        decreases steps - s,
    {
        let seed = hash(s as u64);
        if s % 5 == 0 {
            dir = (dir + 1 + (seed % 3) as i32) % 4;
        }
        let (dx, dy): (i32, i32) = if dir == 0 { (1, 0) } else if dir == 1 { (0, 1) } else if dir == 2 { (-1, 0) } else { (0, -1) };
        let nx = x + dx;
        let ny = y + dy;
        let xm = w / cell - 1;
        let ym = h / cell - 1;
        x = if nx < 0 { 0 } else if nx > xm { xm } else { nx };
        y = if ny < 0 { 0 } else if ny > ym { ym } else { ny };
        let hue = ((s * 6) % 256) as u8;
        let c = rgb(0x40 + hue / 2, 0xC0, 0x80 + hue / 3);
        assert(x * 24 <= 0x4000 && y * 24 <= 0x4000);
        assert((12i32 / 2) * (12i32 / 2) * ((12i32 / 2) * (12i32 / 2)) <= i64::MAX) by (nonlinear_arith);
        canvas.ellipse(x * 24 + 12 - 6, y * 24 + 12 - 6, 12, 12, c, true);
        s = s + 1;
    }
}

/// The marquee's scrolling line.
pub const MARQUEE_TEXT: &'static str = "Buitenzorg OS  --  zonder zorg, tanpa kekhawatiran  --  ";

/// The marquee's left edge at `frame`: it enters from the right and moves
/// 6 pixels a frame, wrapping after the screen plus the text width.
pub open spec fn marquee_x(frame: u64, w: int) -> int {
    w - (frame.wrapping_mul(6) as int) % (w + 57 * 8)
}

/// The marquee picture: the line twice, 20 pixels apart, leaf green over
/// dark green, centred vertically and clipped at the right edge.
pub open spec fn marquee_pixels(p: Seq<u32>, w: int, h: int, frame: u64) -> Seq<u32> {
    let x = marquee_x(frame, w);
    let y = h / 2 - 8;
    let t = MARQUEE_TEXT@;
    let a = text_drawn(p, w, h, x, y, t, 0x6FC14Eu32, w, t.len()).0;
    text_drawn(a, w, h, x, y + 20, t, 0x2C6A24u32, w, t.len()).0
}

fn marquee(canvas: &mut Canvas, frame: u64, w: i32, h: i32)
    requires
        screen_ok(old(canvas)),
        w == old(canvas).width && h == old(canvas).height,
    ensures
        drawn(old(canvas), final(canvas)),
        final(canvas).pixels@ == marquee_pixels(old(canvas).pixels@, w as int, h as int, frame),
{
    let text = MARQUEE_TEXT;
    let tw: i32 = 57 * 8;
    let x = w - ((frame.wrapping_mul(6)) % ((w + tw) as u64)) as i32;
    let y = h / 2 - 8;
    canvas.draw_text(x, y, text, rgb(0x6F, 0xC1, 0x4E), w);
    canvas.draw_text(x, y + 20, text, rgb(0x2C, 0x6A, 0x24), w);
}

/// The colour channel of a bubble: a byte of its hash with bit 6 set.
pub open spec fn bubble_channel(hx: u64, shift: u64) -> int {
    (((hx >> shift) & 0xFFu64) as u8 | 0x40u8) as int
}

/// The first `n` of the six bubbles: bubble `i` is a filled disc whose
/// size, colour, phase and speeds come from the hash of `i`, bouncing
/// within the screen.
pub open spec fn bubble_pixels(p: Seq<u32>, w: int, h: int, frame: u64, n: int) -> Seq<u32>
    decreases n,
{
    if n <= 0 {
        p
    } else {
        let q = bubble_pixels(p, w, h, frame, n - 1);
        let hx = hash_spec((n - 1) as u64);
        let sz = 30 + hx % 40;
        let x = bounce_spec((frame + hx % 300) as u64, (w - sz) as i32, (hx % 4 + 2) as i32);
        let y = bounce_spec((frame + (hx >> 8u64) % 300) as u64, (h - sz) as i32, ((hx >> 4u64) % 4 + 2) as i32);
        let c = bubble_channel(hx, 0) * 65536 + bubble_channel(hx, 8) * 256 + bubble_channel(hx, 16);
        crate::gfx::ellipse_rows(q, w, h, x, y, sz, sz, c as u32, true, (2 * (sz / 2) + 1) as nat)
    }
}

fn bouncing(canvas: &mut Canvas, frame: u64, w: i32, h: i32)
    requires
        screen_ok(old(canvas)),
        w == old(canvas).width && h == old(canvas).height,
        frame < 0x1_0000_0000_0000,
    ensures
        drawn(old(canvas), final(canvas)),
        final(canvas).pixels@ == bubble_pixels(old(canvas).pixels@, w as int, h as int, frame, 6),
{
    let mut i: u64 = 0;
    while i < 6
        invariant
            drawn(old(canvas), canvas),
            w == canvas.width && h == canvas.height,
            frame < 0x1_0000_0000_0000,
            i <= 6,
            canvas.pixels@ == bubble_pixels(old(canvas).pixels@, w as int, h as int, frame, i as int),
        decreases 6 - i,
    {
        let hx = hash(i);
        let sz = 30 + (hx % 40) as i32;
        let x = bounce(frame + hx % 300, w - sz, (hx % 4 + 2) as i32);
        let y = bounce(frame + (hx >> 8) % 300, h - sz, ((hx >> 4) % 4 + 2) as i32);
        let c = rgb((hx & 0xFF) as u8 | 0x40, ((hx >> 8) & 0xFF) as u8 | 0x40, ((hx >> 16) & 0xFF) as u8 | 0x40);
        proof {
            assert(hx >> 0u64 == hx) by (bit_vector);
            assert(c == bubble_channel(hx, 0) * 65536 + bubble_channel(hx, 8) * 256 + bubble_channel(hx, 16));
        }
        assert((sz / 2) * (sz / 2) * ((sz / 2) * (sz / 2)) <= i64::MAX) by (nonlinear_arith)
            requires 0 <= sz < 70;
        canvas.ellipse(x, y, sz, sz, c, true);
        i = i + 1;
    }
}

/// Draw one frame of the configured saver: the screen cleared to black,
/// then the saver's picture for `frame`.
pub fn render(canvas: &mut Canvas, cfg: &Config, frame: u64)
    requires
        screen_ok(old(canvas)),
        frame < 0x1_0000_0000_0000,
        cfg.saver == Saver::Pipes ==> old(canvas).width >= 24 && old(canvas).height >= 24,
    ensures
        drawn(old(canvas), final(canvas)),
        ({
            let (w, h) = (old(canvas).width as int, old(canvas).height as int);
            let black = rect_filled(old(canvas).pixels@, w, h, 0, 0, w, h, 0);
            &&& cfg.saver == Saver::Blank ==> final(canvas).pixels@ == black
            &&& cfg.saver == Saver::Marquee ==> final(canvas).pixels@ == marquee_pixels(black, w, h, frame)
            &&& cfg.saver == Saver::Starfield ==> final(canvas).pixels@ == star_pixels(black, w, h, frame, 220)
            &&& cfg.saver == Saver::Mystify ==> final(canvas).pixels@ == mystify_pixels(black, w, h, frame, 2)
            &&& cfg.saver == Saver::Bouncing ==> final(canvas).pixels@ == bubble_pixels(black, w, h, frame, 6)
            &&& cfg.saver == Saver::Pipes ==> final(canvas).pixels@ == pipe_pixels(black, w, h, (frame % 400) as int)
        }),
{
    let (w, h) = (canvas.width as i32, canvas.height as i32);
    canvas.fill_rect(0, 0, w, h, rgb(0, 0, 0));
    match cfg.saver {
        Saver::Starfield => starfield(canvas, frame, w, h),
        Saver::Mystify => mystify(canvas, frame, w, h),
        Saver::Pipes => pipes(canvas, frame, w, h),
        Saver::Marquee => marquee(canvas, frame, w, h),
        Saver::Bouncing => bouncing(canvas, frame, w, h),
        Saver::Blank => {},
    }
}

} // verus!
