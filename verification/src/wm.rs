//! Window manager: floating windows with title bars, z-order, hit testing,
//! mouse-driven move/resize, title-bar buttons (minimize, maximize, close)
//! and virtual desktops (workspaces).
//!
//! Geometry is kept within a fixed bound so that every coordinate sum the
//! manager and the compositor form stays within `i32`.

use vstd::prelude::*;
use crate::text::{owned, starts_with};
use crate::gfx::{Canvas, Color, isqrt, is_isqrt};
use crate::theme::{Theme, ThemeState, TitleStyle, ShadowStyle};
use crate::wallpaper::Wallpaper;
use crate::abi::{DrawCmd, draw_op};

verus! {

/// Title bar height.
pub const TITLE_H: i32 = 24;
/// Window border width.
pub const BORDER: i32 = 2;
/// Size of the bottom-right resize grip.
pub const RESIZE_GRIP: i32 = 14;
/// Smallest width a resize leaves.
pub const MIN_W: i32 = 120;
/// Smallest height a resize leaves.
pub const MIN_H: i32 = 60;
/// Taskbar height.
pub const TASKBAR_H: i32 = 28;
/// Title-bar button width.
pub const BTN_W: i32 = 20;
/// Number of virtual desktops.
pub const WORKSPACES: u8 = 4;
/// Bound on every window coordinate and size.
pub const GEOM: i32 = 0x1000_0000;
/// Bound on the screen size.
pub const SCREEN_MAX: i32 = 0x4000;
/// Bound on the number of windows.
pub const MAX_WINDOWS: usize = 0x400;

/// Pixel canvas owned by an app window: the client area apps draw into.
pub struct AppCanvas {
    pub w: i32,
    pub h: i32,
    pub pixels: Vec<u32>,
}

/// Window state.
#[derive(Clone, Copy, PartialEq, Eq, Debug, Structural)]
pub enum WinState {
    Normal,
    Minimized,
    Maximized,
}

/// Title-bar control buttons.
#[derive(Clone, Copy, PartialEq, Eq, Debug, Structural)]
pub enum TitleButton {
    Minimize,
    Maximize,
    Close,
}

/// A window; `saved` is the geometry restored after maximize/minimize.
pub struct Window {
    pub id: u32,
    pub title: String,
    pub x: i32,
    pub y: i32,
    pub w: i32,
    pub h: i32,
    pub lines: Vec<String>,
    pub workspace: u8,
    pub canvas: Option<AppCanvas>,
    pub state: WinState,
    pub saved: (i32, i32, i32, i32),
}

/// What a held mouse button is doing.
#[derive(Clone, Copy, PartialEq, Eq, Debug, Structural)]
pub enum Drag {
    Idle,
    Move { id: u32, dx: i32, dy: i32 },
    Resize { id: u32 },
}

/// The window manager state. `windows` is in back-to-front z-order (last
/// is on top).
pub struct Wm {
    pub windows: Vec<Window>,
    pub next_id: u32,
    pub cursor: (i32, i32),
    pub drag: Drag,
    pub prev_left: bool,
    pub width: i32,
    pub height: i32,
    pub workspace: u8,
    /// (window id, button) under the cursor, highlighted.
    pub hover: Option<(u32, TitleButton)>,
    /// Active click ripple: (x, y, start frame).
    pub ripple: Option<(i32, i32, u64)>,
    /// Animation frame counter.
    pub frame: u64,
    pub animations: bool,
    pub rounded: bool,
    pub cursor_scale: i32,
}

/// A coordinate or size within the geometry bound.
pub open spec fn in_geom(v: int) -> bool {
    -GEOM <= v <= GEOM
}

/// A window size within the bound that resizing keeps (a window can grow
/// to the screen's far edge from any position).
pub open spec fn in_size(v: int) -> bool {
    -(GEOM + SCREEN_MAX) <= v <= GEOM + SCREEN_MAX
}

impl Window {
    /// The window's geometry, saved geometry and canvas are consistent.
    pub open spec fn wf(&self) -> bool {
        &&& in_geom(self.x as int) && in_geom(self.y as int) && in_size(self.w as int) && in_size(self.h as int)
        &&& in_geom(self.saved.0 as int) && in_geom(self.saved.1 as int)
        &&& in_size(self.saved.2 as int) && in_size(self.saved.3 as int)
        &&& self.workspace < WORKSPACES
        &&& self.canvas is Some ==> {
            let c = self.canvas->0;
            1 <= c.w <= GEOM && 1 <= c.h <= GEOM && c.w * c.h <= i32::MAX && c.pixels@.len() == c.w * c.h
        }
    }
}

impl Wm {
    /// The screen is 1..=SCREEN_MAX pixels each way, the cursor is on it,
    /// the workspace and cursor scale are in range, and every window is
    /// well formed.
    pub open spec fn wf(&self) -> bool {
        &&& 40 <= self.width <= SCREEN_MAX
        &&& 48 <= self.height <= SCREEN_MAX
        &&& 0 <= self.cursor.0 < self.width
        &&& 0 <= self.cursor.1 < self.height
        &&& self.workspace < WORKSPACES
        &&& 1 <= self.cursor_scale <= 3
        &&& self.windows@.len() <= MAX_WINDOWS
        &&& forall|i: int| 0 <= i < self.windows@.len() ==> (#[trigger] self.windows@[i]).wf()
        &&& self.drag matches Drag::Move { dx, dy, .. } ==> in_size(dx as int) && in_size(dy as int)
        &&& self.ripple matches Some((rx, ry, _start)) ==> 0 <= rx < self.width && 0 <= ry < self.height
    }
}

/// `k` is the first window with id `id`.
pub open spec fn is_first_id(ws: Seq<Window>, id: u32, k: int) -> bool {
    &&& 0 <= k < ws.len()
    &&& ws[k].id == id
    &&& forall|j: int| 0 <= j < k ==> (#[trigger] ws[j]).id != id
}

/// No window has id `id`.
pub open spec fn no_id(ws: Seq<Window>, id: u32) -> bool {
    forall|j: int| 0 <= j < ws.len() ==> (#[trigger] ws[j]).id != id
}

/// `v` clamped to `lo ..= hi` (`lo <= hi`).
pub open spec fn clamp(v: int, lo: int, hi: int) -> int {
    if v < lo { lo } else if v > hi { hi } else { v }
}

/// Clamp `v` to `lo ..= hi`.
fn clamp_i32(v: i32, lo: i32, hi: i32) -> (r: i32)
    requires
        lo <= hi,
    ensures
        r == clamp(v as int, lo as int, hi as int),
{
    if v < lo { lo } else if v > hi { hi } else { v }
}

/// The window manager for a `width` by `height` screen: no windows, cursor
/// in the middle, workspace 0, animations and rounded corners on.
pub fn init(width: usize, height: usize) -> (wm: Wm)
    requires
        40 <= width <= SCREEN_MAX,
        48 <= height <= SCREEN_MAX,
    ensures
        wm.wf(),
        wm.windows@.len() == 0,
        wm.next_id == 1,
        wm.cursor == ((width / 2) as i32, (height / 2) as i32),
        wm.drag == Drag::Idle,
        !wm.prev_left,
        wm.width == width && wm.height == height,
        wm.workspace == 0,
        wm.hover is None && wm.ripple is None,
        wm.frame == 0,
        wm.animations && wm.rounded,
        wm.cursor_scale == 1,
{
    let w = width as i32;
    let h = height as i32;
    Wm {
        windows: Vec::new(),
        next_id: 1,
        cursor: (w / 2, h / 2),
        drag: Drag::Idle,
        prev_left: false,
        width: w,
        height: h,
        workspace: 0,
        hover: None,
        ripple: None,
        frame: 0,
        animations: true,
        rounded: true,
        cursor_scale: 1,
    }
}

/// Set the cursor size (1 normal, 2 large, 3 huge), clamped to 1..=3.
pub fn set_cursor_scale(wm: &mut Wm, scale: i32)
    requires
        old(wm).wf(),
    ensures
        final(wm).wf(),
        *final(wm) == (Wm { cursor_scale: clamp(scale as int, 1, 3) as i32, ..*old(wm) }),
{
    wm.cursor_scale = clamp_i32(scale, 1, 3);
}

/// The ripple started more than 8 frames before `frame`.
pub open spec fn ripple_expired(r: Option<(i32, i32, u64)>, frame: u64) -> bool {
    match r {
        Some((_x, _y, start)) => frame - start > 8,
        None => false,
    }
}

/// Advance the animation frame counter. Returns true while a click ripple
/// is in flight (it ends once more than 8 frames old).
pub fn tick_animation(wm: &mut Wm, frame: u64) -> (redraw: bool)
    requires
        old(wm).wf(),
    ensures
        final(wm).wf(),
        redraw == old(wm).ripple is Some,
        final(wm).frame == frame,
        ripple_expired(old(wm).ripple, frame) ==> final(wm).ripple is None,
        !ripple_expired(old(wm).ripple, frame) ==> final(wm).ripple == old(wm).ripple,
        *final(wm) == (Wm { frame: frame, ripple: final(wm).ripple, ..*old(wm) }),
{
    wm.frame = frame;
    match wm.ripple {
        Some((_, _, start)) => {
            if frame.saturating_sub(start) > 8 {
                wm.ripple = None;
            }
            true
        },
        None => false,
    }
}

/// Turn animations and rounded corners on or off.
pub fn set_options(wm: &mut Wm, animations: bool, rounded: bool)
    requires
        old(wm).wf(),
    ensures
        final(wm).wf(),
        *final(wm) == (Wm { animations: animations, rounded: rounded, ..*old(wm) }),
{
    wm.animations = animations;
    wm.rounded = rounded;
}

/// The (animations, rounded) options.
pub fn options(wm: &Wm) -> (o: (bool, bool))
    ensures
        o == (wm.animations, wm.rounded),
{
    (wm.animations, wm.rounded)
}

/// Copy a list of string slices into owned strings.
fn owned_lines(lines: &[&str]) -> (v: Vec<String>)
    ensures
        v@.len() == lines@.len(),
        forall|i: int| 0 <= i < lines@.len() ==> (#[trigger] v@[i])@ == lines@[i]@,
{
    let mut v: Vec<String> = Vec::new();
    let mut i: usize = 0;
    while i < lines.len()
        invariant
            i <= lines@.len(),
            v@.len() == i,
            forall|k: int| 0 <= k < i ==> (#[trigger] v@[k])@ == lines@[k]@,
        decreases lines@.len() - i,
    {
        v.push(owned(lines[i]));
        i = i + 1;
    }
    v
}

/// Create a text window on the current workspace, on top. Returns its id.
pub fn create_window(wm: &mut Wm, title: &str, x: i32, y: i32, w: i32, h: i32, lines: &[&str]) -> (id: u32)
    requires
        old(wm).wf(),
        old(wm).next_id < u32::MAX,
        old(wm).windows@.len() < MAX_WINDOWS,
        in_geom(x as int) && in_geom(y as int) && in_geom(w as int) && in_geom(h as int),
    ensures
        final(wm).wf(),
        id == old(wm).next_id,
        final(wm).next_id == old(wm).next_id + 1,
        final(wm).windows@.len() == old(wm).windows@.len() + 1,
        final(wm).windows@.drop_last() == old(wm).windows@,
        ({
            let win = final(wm).windows@.last();
            &&& win.id == id && win.title@ == title@
            &&& win.x == x && win.y == y && win.w == w && win.h == h
            &&& win.lines@.len() == lines@.len()
            &&& forall|i: int| 0 <= i < lines@.len() ==> (#[trigger] win.lines@[i])@ == lines@[i]@
            &&& win.workspace == old(wm).workspace
            &&& win.canvas is None
            &&& win.state == WinState::Normal
            &&& win.saved == (x, y, w, h)
        }),
        final(wm).workspace == old(wm).workspace && final(wm).width == old(wm).width && final(wm).height == old(wm).height,
        final(wm).cursor == old(wm).cursor && final(wm).drag == old(wm).drag,
{
    let id = wm.next_id;
    wm.next_id = wm.next_id + 1;
    let workspace = wm.workspace;
    let win = Window {
        id,
        title: owned(title),
        x,
        y,
        w,
        h,
        lines: owned_lines(lines),
        workspace,
        canvas: None,
        state: WinState::Normal,
        saved: (x, y, w, h),
    };
    let ghost before = wm.windows@;
    wm.windows.push(win);
    proof {
        assert(wm.windows@.drop_last() =~= before);
        assert forall|i: int| 0 <= i < wm.windows@.len() implies (#[trigger] wm.windows@[i]).wf() by {
            if i < before.len() {
                assert(wm.windows@[i] == before[i]);
            }
        }
    }
    id
}

/// Index of the first window with id `id`.
fn find_window(wm: &Wm, id: u32) -> (r: Option<usize>)
    ensures
        r is None <==> no_id(wm.windows@, id),
        r is Some ==> is_first_id(wm.windows@, id, r->0 as int),
{
    let mut i: usize = 0;
    while i < wm.windows.len()
        invariant
            i <= wm.windows@.len(),
            forall|j: int| 0 <= j < i ==> (#[trigger] wm.windows@[j]).id != id,
        decreases wm.windows@.len() - i,
    {
        if wm.windows[i].id == id {
            return Some(i);
        }
        i = i + 1;
    }
    None
}

/// A window is a widget when its title starts with "widget:".
pub open spec fn is_widget(w: Window) -> bool {
    crate::text::is_prefix("widget:"@, w.title@)
}

/// The height the widget board uses: each widget's height plus a 12-pixel
/// gap, over the first `n` windows.
pub open spec fn widget_used(ws: Seq<Window>, n: int) -> int
    decreases n,
{
    if n <= 0 { 0 } else { widget_used(ws, n - 1) + if is_widget(ws[n - 1]) { ws[n - 1].h + 12 } else { 0 } }
}

/// The height the widget board uses (see [`widget_used`]).
pub fn widget_board_used(wm: &Wm) -> (u: i64)
    requires
        wm.wf(),
    ensures
        u == widget_used(wm.windows@, wm.windows@.len() as int),
{
    let mut u: i64 = 0;
    let mut i: usize = 0;
    while i < wm.windows.len()
        invariant
            wm.wf(),
            i <= wm.windows@.len(),
            u == widget_used(wm.windows@, i as int),
            i <= MAX_WINDOWS,
            -(i as int) * (GEOM as int + SCREEN_MAX) <= u <= (i as int) * (GEOM as int + SCREEN_MAX + 12),
        decreases wm.windows@.len() - i,
    {
        assert(wm.windows@[i as int].wf());
        proof {
            reveal_strlit("widget:");
        }
        assert((i as int) * (GEOM as int + SCREEN_MAX + 12) <= 0x400 * (GEOM as int + SCREEN_MAX + 12)) by (nonlinear_arith)
            requires i <= 0x400;
        assert((i as int + 1) * (GEOM as int + SCREEN_MAX + 12) == (i as int) * (GEOM as int + SCREEN_MAX + 12) + GEOM + SCREEN_MAX + 12) by (nonlinear_arith);
        assert(-(i as int + 1) * (GEOM as int + SCREEN_MAX) == -(i as int) * (GEOM as int + SCREEN_MAX) - GEOM - SCREEN_MAX) by (nonlinear_arith);
        assert(-(i as int) * (GEOM as int + SCREEN_MAX) >= -0x400 * (GEOM as int + SCREEN_MAX)) by (nonlinear_arith)
            requires i <= 0x400;
        if starts_with(wm.windows[i].title.as_str(), "widget:") {
            u = u + wm.windows[i].h as i64 + 12;
        }
        i = i + 1;
    }
    u
}

/// Create an app window with a drawable canvas filled with the theme's
/// window body colour. A title starting with "widget:" docks the window on
/// the widget board along the right edge (220 wide, below the widgets
/// already there, titled without the prefix); any other window cascades
/// from (60, 60) by (30, 26) per existing window, kept on screen.
pub fn create_app_window(wm: &mut Wm, th: &crate::theme::ThemeState, title: &str, w: i32, h: i32) -> (id: u32)
    requires
        old(wm).wf(),
        old(wm).next_id < u32::MAX,
        old(wm).windows@.len() < MAX_WINDOWS,
        in_geom(w as int) && in_geom(h as int),
        in_geom(12 + widget_used(old(wm).windows@, old(wm).windows@.len() as int)),
        (if w - 4 < 1 { 1 } else { w - 4 }) * (if h - 28 < 1 { 1 } else { h - 28 }) <= i32::MAX,
        216 * (if h - 28 < 1 { 1 } else { h - 28 }) <= i32::MAX,
    ensures
        final(wm).wf(),
        id == old(wm).next_id,
        final(wm).next_id == old(wm).next_id + 1,
        final(wm).windows@.drop_last() == old(wm).windows@,
        final(wm).windows@.len() == old(wm).windows@.len() + 1,
        ({
            let win = final(wm).windows@.last();
            let n = old(wm).windows@.len() as int;
            let widget = crate::text::is_prefix("widget:"@, title@);
            let ww = if widget { 220int } else { w as int };
            let body = crate::theme::spec_theme(th.index()).win_body;
            &&& win.id == id
            &&& win.workspace == old(wm).workspace
            &&& win.state == WinState::Normal
            &&& win.lines@.len() == 0
            &&& win.h == h && win.w == ww
            &&& win.saved == (win.x, win.y, win.w, win.h)
            &&& widget ==> win.title@ == title@.skip(7) && win.x == old(wm).width - 232
                && win.y == 12 + widget_used(old(wm).windows@, n)
            &&& !widget ==> win.title@ == title@
                && win.x == clamp0(if 60 + n * 30 < old(wm).width - w - 20 { 60 + n * 30 } else { old(wm).width - w - 20 })
                && win.y == clamp0(if 60 + n * 26 < old(wm).height - h - TASKBAR_H - 20 { 60 + n * 26 } else { old(wm).height - h - TASKBAR_H - 20 })
            &&& win.canvas is Some
            &&& win.canvas->0.w == (if ww - 4 < 1 { 1 } else { ww - 4 })
            &&& win.canvas->0.h == (if h - 28 < 1 { 1 } else { h - 28 })
            &&& forall|i: int| 0 <= i < win.canvas->0.pixels@.len() ==> #[trigger] win.canvas->0.pixels@[i] == body
        }),
        final(wm).workspace == old(wm).workspace && final(wm).width == old(wm).width && final(wm).height == old(wm).height,
        final(wm).cursor == old(wm).cursor && final(wm).drag == old(wm).drag,
{
    let id = wm.next_id;
    wm.next_id = wm.next_id + 1;
    let body = crate::theme::current(th).win_body;
    let workspace = wm.workspace;
    let ghost before = wm.windows@;
    proof {
        reveal_strlit("widget:");
    }
    let widget = starts_with(title, "widget:");
    let win = if widget {
        let n = title.unicode_len();
        let name = title.substring_char(7, n);
        let used = widget_board_used(wm) as i32;
        let ww: i32 = 220;
        let board_x = wm.width - ww - 12;
        let y = 12 + used;
        let cw: i32 = ww - 2 * BORDER;
        let ch: i32 = if h - TITLE_H - 2 * BORDER < 1 { 1 } else { h - TITLE_H - 2 * BORDER };
        Window {
            id,
            title: owned(name),
            x: board_x,
            y,
            w: ww,
            h,
            lines: Vec::new(),
            workspace,
            canvas: Some(AppCanvas { w: cw, h: ch, pixels: vec![body; (cw * ch) as usize] }),
            state: WinState::Normal,
            saved: (board_x, y, ww, h),
        }
    } else {
        let n = wm.windows.len() as i32;
        let xa = 60 + n * 30;
        let xb = wm.width - w - 20;
        let xm = if xa < xb { xa } else { xb };
        let x = if xm < 0 { 0 } else { xm };
        let ya = 60 + n * 26;
        let yb = wm.height - h - TASKBAR_H - 20;
        let ym = if ya < yb { ya } else { yb };
        let y = if ym < 0 { 0 } else { ym };
        let cw: i32 = if w - 2 * BORDER < 1 { 1 } else { w - 2 * BORDER };
        let ch: i32 = if h - TITLE_H - 2 * BORDER < 1 { 1 } else { h - TITLE_H - 2 * BORDER };
        Window {
            id,
            title: owned(title),
            x,
            y,
            w,
            h,
            lines: Vec::new(),
            workspace,
            canvas: Some(AppCanvas { w: cw, h: ch, pixels: vec![body; (cw * ch) as usize] }),
            state: WinState::Normal,
            saved: (x, y, w, h),
        }
    };
    assert(win.wf()) by {
        assert((before.len() as int) * 30 <= 0x400 * 30 && (before.len() as int) * 26 <= 0x400 * 26) by (nonlinear_arith)
            requires before.len() <= 0x400;
    }
    wm.windows.push(win);
    proof {
        assert(wm.windows@.drop_last() =~= before);
        assert forall|i: int| 0 <= i < wm.windows@.len() implies (#[trigger] wm.windows@[i]).wf() by {
            if i < before.len() {
                assert(wm.windows@[i] == before[i]);
            }
        }
    }
    id
}

/// `v` clamped below at 0.
pub open spec fn clamp0(v: int) -> int {
    if v < 0 { 0 } else { v }
}

/// Replace the body text of the first window with id `id`, if any.
pub fn set_window_lines(wm: &mut Wm, id: u32, lines: Vec<String>)
    requires
        old(wm).wf(),
    ensures
        final(wm).wf(),
        no_id(old(wm).windows@, id) ==> *final(wm) == *old(wm),
        forall|k: int| #[trigger] is_first_id(old(wm).windows@, id, k) ==> *final(wm) == (Wm {
            windows: final(wm).windows, ..*old(wm) })
            && final(wm).windows@ == old(wm).windows@.update(k, Window { lines: lines, ..old(wm).windows@[k] }),
{
    match find_window(wm, id) {
        Some(k) => {
            let ghost before = wm.windows@;
            wm.windows[k].lines = lines;
            proof {
                assert(wm.windows@ =~= before.update(k as int, Window { lines: lines, ..before[k as int] }));
                assert forall|i: int| 0 <= i < wm.windows@.len() implies (#[trigger] wm.windows@[i]).wf() by {
                    assert(before[i].wf());
                }
            }
        },
        None => {},
    }
}

/// Move the first window with id `id` to workspace `workspace % 4`.
pub fn set_window_workspace(wm: &mut Wm, id: u32, workspace: u8)
    requires
        old(wm).wf(),
    ensures
        final(wm).wf(),
        no_id(old(wm).windows@, id) ==> *final(wm) == *old(wm),
        forall|k: int| #[trigger] is_first_id(old(wm).windows@, id, k) ==> *final(wm) == (Wm {
            windows: final(wm).windows, ..*old(wm) })
            && final(wm).windows@ == old(wm).windows@.update(k, Window { workspace: workspace % WORKSPACES, ..old(wm).windows@[k] }),
{
    match find_window(wm, id) {
        Some(k) => {
            let ghost before = wm.windows@;
            wm.windows[k].workspace = workspace % WORKSPACES;
            proof {
                assert(wm.windows@ =~= before.update(k as int, Window { workspace: workspace % WORKSPACES, ..before[k as int] }));
                assert forall|i: int| 0 <= i < wm.windows@.len() implies (#[trigger] wm.windows@[i]).wf() by {
                    assert(before[i].wf());
                }
            }
        },
        None => {},
    }
}

/// The geometry (x, y, w, h) of the first window with id `id`.
pub fn window_rect(wm: &Wm, id: u32) -> (r: Option<(i32, i32, i32, i32)>)
    ensures
        r is None <==> no_id(wm.windows@, id),
        forall|k: int| #[trigger] is_first_id(wm.windows@, id, k) ==>
            r == Some((wm.windows@[k].x, wm.windows@[k].y, wm.windows@[k].w, wm.windows@[k].h)),
{
    match find_window(wm, id) {
        Some(k) => {
            proof { lemma_first_id_unique(wm.windows@, id, k as int); }
            Some((wm.windows[k].x, wm.windows[k].y, wm.windows[k].w, wm.windows[k].h))
        },
        None => None,
    }
}

/// The state of the first window with id `id`.
pub fn window_state(wm: &Wm, id: u32) -> (r: Option<WinState>)
    ensures
        r is None <==> no_id(wm.windows@, id),
        forall|k: int| #[trigger] is_first_id(wm.windows@, id, k) ==> r == Some(wm.windows@[k].state),
{
    match find_window(wm, id) {
        Some(k) => {
            proof { lemma_first_id_unique(wm.windows@, id, k as int); }
            Some(wm.windows[k].state)
        },
        None => None,
    }
}

/// There is only one first window with a given id.
proof fn lemma_first_id_unique(ws: Seq<Window>, id: u32, k: int)
    requires
        is_first_id(ws, id, k),
    ensures
        forall|j: int| #[trigger] is_first_id(ws, id, j) ==> j == k,
{
    assert forall|j: int| #[trigger] is_first_id(ws, id, j) implies j == k by {
        if j < k {
            assert(ws[j].id != id);
        } else if j > k {
            assert(ws[k].id != id);
        }
    }
}

/// Window `w` after maximize/restore on a `width` by `height` screen:
/// a maximized window gets its saved geometry back and becomes normal;
/// otherwise the geometry is saved (from normal only) and the window fills
/// the screen above the taskbar.
pub open spec fn toggled(w: Window, width: i32, height: i32) -> Window {
    match w.state {
        WinState::Maximized => Window {
            x: w.saved.0, y: w.saved.1, w: w.saved.2, h: w.saved.3, state: WinState::Normal, ..w },
        _ => Window {
            saved: if w.state == WinState::Normal { (w.x, w.y, w.w, w.h) } else { w.saved },
            x: 0, y: 0, w: width, h: (height - TASKBAR_H) as i32, state: WinState::Maximized, ..w },
    }
}

/// Window `w` after minimize: the geometry is saved (from normal only) and
/// the window becomes minimized; a minimized window is unchanged.
pub open spec fn minimized(w: Window) -> Window {
    if w.state == WinState::Minimized {
        w
    } else {
        Window { saved: if w.state == WinState::Normal { (w.x, w.y, w.w, w.h) } else { w.saved }, state: WinState::Minimized, ..w }
    }
}

/// The windows without those whose id is `id`, in order.
pub open spec fn without_id(ws: Seq<Window>, id: u32) -> Seq<Window> {
    ws.filter(|w: Window| w.id != id)
}

/// Apply `f` to the first window with id `id` (if any).
pub open spec fn update_first(ws: Seq<Window>, id: u32, f: spec_fn(Window) -> Window) -> Seq<Window> {
    if exists|k: int| #[trigger] is_first_id(ws, id, k) {
        let k = choose|k: int| #[trigger] is_first_id(ws, id, k);
        ws.update(k, f(ws[k]))
    } else {
        ws
    }
}

impl Wm {
    /// Maximize or restore the first window with id `id`.
    fn toggle_maximize(&mut self, id: u32)
        requires
            old(self).wf(),
        ensures
            final(self).wf(),
            *final(self) == (Wm { windows: final(self).windows, ..*old(self) }),
            final(self).windows@ == update_first(old(self).windows@, id,
                |w: Window| toggled(w, old(self).width, old(self).height)),
    {
        let width = self.width;
        let height = self.height;
        let ghost before = self.windows@;
        match find_window(self, id) {
            Some(k) => {
                proof { lemma_first_id_unique(before, id, k as int); }
                assert(before[k as int].wf());
                match self.windows[k].state {
                    WinState::Maximized => {
                        let (sx, sy, sw, sh) = self.windows[k].saved;
                        self.windows[k].x = sx;
                        self.windows[k].y = sy;
                        self.windows[k].w = sw;
                        self.windows[k].h = sh;
                        self.windows[k].state = WinState::Normal;
                    },
                    _ => {
                        if self.windows[k].state == WinState::Normal {
                            let g = (self.windows[k].x, self.windows[k].y, self.windows[k].w, self.windows[k].h);
                            self.windows[k].saved = g;
                        }
                        self.windows[k].x = 0;
                        self.windows[k].y = 0;
                        self.windows[k].w = width;
                        self.windows[k].h = height - TASKBAR_H;
                        self.windows[k].state = WinState::Maximized;
                    },
                }
                proof {
                    assert(self.windows@ =~= before.update(k as int, toggled(before[k as int], width, height)));
                    assert forall|i: int| 0 <= i < self.windows@.len() implies (#[trigger] self.windows@[i]).wf() by {
                        assert(before[i].wf());
                    }
                }
            },
            None => {},
        }
    }

    /// Press a title-bar button of the window with id `id`: close removes
    /// every window with that id; minimize minimizes the first one;
    /// maximize toggles it.
    fn press_button(&mut self, id: u32, btn: TitleButton)
        requires
            old(self).wf(),
        ensures
            final(self).wf(),
            *final(self) == (Wm { windows: final(self).windows, ..*old(self) }),
            btn == TitleButton::Close ==> final(self).windows@ == without_id(old(self).windows@, id),
            btn == TitleButton::Minimize ==> final(self).windows@ == update_first(old(self).windows@, id, |w: Window| minimized(w)),
            btn == TitleButton::Maximize ==> final(self).windows@ == update_first(old(self).windows@, id,
                |w: Window| toggled(w, old(self).width, old(self).height)),
            final(self)@ == pressed_button(old(self)@, id, btn),
    {
        let ghost before = self.windows@;
        match btn {
            TitleButton::Close => {
                let mut rest: Vec<Window> = Vec::new();
                std::mem::swap(&mut rest, &mut self.windows);
                let mut kept: Vec<Window> = Vec::new();
                let ghost f = |w: Window| w.id != id;
                let ghost mut i: int = 0;
                assert(rest@ =~= before.skip(0));
                assert(before.take(0) =~= Seq::<Window>::empty());
                proof { reveal(Seq::filter); }
                while rest.len() > 0
                    invariant
                        0 <= i <= before.len(),
                        rest@ == before.skip(i),
                        kept@ == before.take(i).filter(f),
                        f == (|w: Window| w.id != id),
                        forall|j: int| 0 <= j < kept@.len() ==> (#[trigger] kept@[j]).wf(),
                        forall|j: int| 0 <= j < before.len() ==> (#[trigger] before[j]).wf(),
                    decreases rest@.len(),
                {
                    let w = rest.remove(0);
                    proof {
                        assert(w == before[i]);
                        reveal(Seq::filter);
                        assert(before.take(i + 1).drop_last() =~= before.take(i));
                        assert(before.take(i + 1).last() == w);
                    }
                    if w.id != id {
                        kept.push(w);
                    }
                    proof {
                        i = i + 1;
                    }
                    assert(rest@ =~= before.skip(i));
                }
                assert(before.take(i) =~= before);
                proof {
                    before.lemma_filter_len(f);
                }
                self.windows = kept;
            },
            TitleButton::Minimize => {
                match find_window(self, id) {
                    Some(k) => {
                        proof { lemma_first_id_unique(before, id, k as int); }
                        assert(before[k as int].wf());
                        if self.windows[k].state != WinState::Minimized {
                            if self.windows[k].state == WinState::Normal {
                                let g = (self.windows[k].x, self.windows[k].y, self.windows[k].w, self.windows[k].h);
                                self.windows[k].saved = g;
                            }
                            self.windows[k].state = WinState::Minimized;
                        }
                        proof {
                            assert(self.windows@ =~= before.update(k as int, minimized(before[k as int])));
                            assert forall|i: int| 0 <= i < self.windows@.len() implies (#[trigger] self.windows@[i]).wf() by {
                                assert(before[i].wf());
                            }
                        }
                    },
                    None => {},
                }
            },
            TitleButton::Maximize => {
                self.toggle_maximize(id);
            },
        }
    }
}

/// Maximize or restore a window.
pub fn maximize(wm: &mut Wm, id: u32)
    requires
        old(wm).wf(),
    ensures
        final(wm).wf(),
        *final(wm) == (Wm { windows: final(wm).windows, ..*old(wm) }),
        final(wm).windows@ == update_first(old(wm).windows@, id, |w: Window| toggled(w, old(wm).width, old(wm).height)),
{
    wm.toggle_maximize(id);
}

/// Minimize a window.
pub fn minimize(wm: &mut Wm, id: u32)
    requires
        old(wm).wf(),
    ensures
        final(wm).wf(),
        *final(wm) == (Wm { windows: final(wm).windows, ..*old(wm) }),
        final(wm).windows@ == update_first(old(wm).windows@, id, |w: Window| minimized(w)),
{
    wm.press_button(id, TitleButton::Minimize);
}

/// Close (remove) every window with id `id`.
pub fn close(wm: &mut Wm, id: u32)
    requires
        old(wm).wf(),
    ensures
        final(wm).wf(),
        *final(wm) == (Wm { windows: final(wm).windows, ..*old(wm) }),
        final(wm).windows@ == without_id(old(wm).windows@, id),
{
    wm.press_button(id, TitleButton::Close);
}

/// Switch to virtual desktop `n % 4`, ending any drag. Returns it.
pub fn switch_workspace(wm: &mut Wm, n: u8) -> (ws: u8)
    requires
        old(wm).wf(),
    ensures
        final(wm).wf(),
        ws == n % WORKSPACES,
        *final(wm) == (Wm { workspace: ws, drag: Drag::Idle, ..*old(wm) }),
{
    wm.workspace = n % WORKSPACES;
    wm.drag = Drag::Idle;
    wm.workspace
}

/// The current virtual desktop.
pub fn current_workspace(wm: &Wm) -> (ws: u8)
    ensures
        ws == wm.workspace,
{
    wm.workspace
}

/// Move the cursor, clamped to the screen.
pub fn set_cursor(wm: &mut Wm, x: i32, y: i32)
    requires
        old(wm).wf(),
    ensures
        final(wm).wf(),
        *final(wm) == (Wm { cursor: (clamp(x as int, 0, old(wm).width - 1) as i32, clamp(y as int, 0, old(wm).height - 1) as i32), ..*old(wm) }),
{
    wm.cursor = (clamp_i32(x, 0, wm.width - 1), clamp_i32(y, 0, wm.height - 1));
}

/// Law: maximizing a normal window and then restoring it gives back its
/// geometry and state.
pub proof fn lemma_maximize_restores(w: Window, width: i32, height: i32)
    requires
        w.state == WinState::Normal,
    ensures
        toggled(toggled(w, width, height), width, height) == (Window { saved: (w.x, w.y, w.w, w.h), ..w }),
{
}

/// Law: minimizing is idempotent.
pub proof fn lemma_minimize_idempotent(w: Window)
    ensures
        minimized(minimized(w)) == minimized(w),
{
}

/// Law: after closing, no window has the closed id and the others keep
/// their order.
pub proof fn lemma_close_removes(ws: Seq<Window>, id: u32)
    ensures
        no_id(without_id(ws, id), id),
        without_id(ws, id).len() <= ws.len(),
{
    let f = |w: Window| w.id != id;
    ws.lemma_filter_len(f);
    assert forall|j: int| 0 <= j < without_id(ws, id).len() implies (#[trigger] without_id(ws, id)[j]).id != id by {
        ws.lemma_filter_pred(f, j);
    }
}

/// The window manager state as a value.
pub struct WmView {
    pub windows: Seq<Window>,
    pub next_id: u32,
    pub cursor: (i32, i32),
    pub drag: Drag,
    pub prev_left: bool,
    pub width: i32,
    pub height: i32,
    pub workspace: u8,
    pub hover: Option<(u32, TitleButton)>,
    pub ripple: Option<(i32, i32, u64)>,
    pub frame: u64,
    pub animations: bool,
    pub rounded: bool,
    pub cursor_scale: i32,
}

impl View for Wm {
    type V = WmView;

    open spec fn view(&self) -> WmView {
        WmView {
            windows: self.windows@,
            next_id: self.next_id,
            cursor: self.cursor,
            drag: self.drag,
            prev_left: self.prev_left,
            width: self.width,
            height: self.height,
            workspace: self.workspace,
            hover: self.hover,
            ripple: self.ripple,
            frame: self.frame,
            animations: self.animations,
            rounded: self.rounded,
            cursor_scale: self.cursor_scale,
        }
    }
}

/// Window `w` is on workspace `cur` and covers `(x, y)`.
pub open spec fn hits(w: Window, cur: u8, x: int, y: int) -> bool {
    w.workspace == cur && w.x <= x < w.x + w.w && w.y <= y < w.y + w.h
}

/// `k` is the top-most window on workspace `cur` covering `(x, y)`.
pub open spec fn top_hit(ws: Seq<Window>, cur: u8, x: int, y: int, k: int) -> bool {
    &&& 0 <= k < ws.len()
    &&& hits(ws[k], cur, x, y)
    &&& forall|j: int| k < j < ws.len() ==> !hits(#[trigger] ws[j], cur, x, y)
}

/// The top-most window on workspace `cur` covering `(x, y)`, if any.
pub open spec fn window_at_spec(ws: Seq<Window>, cur: u8, x: int, y: int) -> Option<int> {
    if exists|k: int| #[trigger] top_hit(ws, cur, x, y, k) {
        Some(choose|k: int| #[trigger] top_hit(ws, cur, x, y, k))
    } else {
        None
    }
}

/// The title-bar button of window `w` under `(x, y)`: minimize, maximize
/// and close are 20 pixels wide each, ending 2 pixels from the right edge.
pub open spec fn button_at(w: Window, x: int, y: int) -> Option<TitleButton> {
    let right = w.x + w.w - BORDER;
    if y >= w.y + TITLE_H {
        None
    } else if right - 3 * BTN_W <= x < right - 2 * BTN_W {
        Some(TitleButton::Minimize)
    } else if right - 2 * BTN_W <= x < right - BTN_W {
        Some(TitleButton::Maximize)
    } else if right - BTN_W <= x < right {
        Some(TitleButton::Close)
    } else {
        None
    }
}

/// The (window id, button) under `(x, y)` on the top-most window there.
pub open spec fn title_button_spec(v: WmView, x: int, y: int) -> Option<(u32, TitleButton)> {
    match window_at_spec(v.windows, v.workspace, x, y) {
        Some(k) => match button_at(v.windows[k], x, y) {
            Some(b) => Some((v.windows[k].id, b)),
            None => None,
        },
        None => None,
    }
}

/// `v` after pressing button `btn` of window `id`.
pub open spec fn pressed_button(v: WmView, id: u32, btn: TitleButton) -> WmView {
    WmView {
        windows: match btn {
            TitleButton::Close => without_id(v.windows, id),
            TitleButton::Minimize => update_first(v.windows, id, |w: Window| minimized(w)),
            TitleButton::Maximize => update_first(v.windows, id, |w: Window| toggled(w, v.width, v.height)),
        },
        ..v
    }
}

/// `v` after a button press at `(x, y)` outside the taskbar and title
/// buttons: the window there is raised; the press starts a resize in its
/// bottom-right grip, a move in its title bar, and nothing elsewhere.
pub open spec fn drag_begun(v: WmView, x: int, y: int) -> WmView {
    match window_at_spec(v.windows, v.workspace, x, y) {
        Some(k) => {
            let w = v.windows[k];
            let drag = if x >= w.x + w.w - RESIZE_GRIP && y >= w.y + w.h - RESIZE_GRIP {
                Drag::Resize { id: w.id }
            } else if y < w.y + TITLE_H {
                Drag::Move { id: w.id, dx: (x - w.x) as i32, dy: (y - w.y) as i32 }
            } else {
                Drag::Idle
            };
            WmView { windows: v.windows.remove(k).push(w), drag: drag, ..v }
        },
        None => v,
    }
}

/// `min(max(v, lo), hi)`.
pub open spec fn max_then_min(v: int, lo: int, hi: int) -> int {
    let m = if v < lo { lo } else { v };
    if m > hi { hi } else { m }
}

/// `v` after the held button moved the cursor by `(mdx, mdy)`: a move
/// places the window under the cursor (kept on screen); a resize grows the
/// window, at least 120 by 60 and at most to the screen edge.
pub open spec fn drag_continued(v: WmView, mdx: int, mdy: int) -> WmView {
    match v.drag {
        Drag::Move { id, dx, dy } => WmView {
            windows: update_first(v.windows, id, |w: Window| Window {
                x: clamp(v.cursor.0 - dx, 0, v.width - 40) as i32,
                y: clamp(v.cursor.1 - dy, 0, v.height - TASKBAR_H - 20) as i32,
                ..w }),
            ..v
        },
        Drag::Resize { id } => WmView {
            windows: update_first(v.windows, id, |w: Window| Window {
                w: max_then_min(w.w + mdx, MIN_W as int, v.width - w.x) as i32,
                h: max_then_min(w.h + mdy, MIN_H as int, v.height - TASKBAR_H - w.y) as i32,
                ..w }),
            ..v
        },
        Drag::Idle => v,
    }
}

/// Window `w` brought back: a minimized window gets its saved geometry
/// and becomes normal.
pub open spec fn restored(w: Window) -> Window {
    if w.state == WinState::Minimized {
        Window { x: w.saved.0, y: w.saved.1, w: w.saved.2, h: w.saved.3, state: WinState::Normal, ..w }
    } else {
        w
    }
}

/// `v` after focusing window `id`: restored if minimized, then raised.
pub open spec fn focused(v: WmView, id: u32) -> WmView {
    if exists|k: int| #[trigger] is_first_id(v.windows, id, k) {
        let k = choose|k: int| #[trigger] is_first_id(v.windows, id, k);
        WmView { windows: v.windows.remove(k).push(restored(v.windows[k])), ..v }
    } else {
        v
    }
}

/// The windows on workspace `cur`, in z-order.
pub open spec fn on_workspace(ws: Seq<Window>, cur: u8) -> Seq<Window> {
    ws.filter(|w: Window| w.workspace == cur)
}

/// First pixel of the taskbar's window buttons: after the "Buitenzorg"
/// label and the four workspace buttons.
pub const TASKBAR_FIRST: i32 = 218;

/// `x` is on the taskbar button of the `q`-th window of the workspace.
pub open spec fn in_task_button(x: int, q: int) -> bool {
    TASKBAR_FIRST + 128 * q <= x < TASKBAR_FIRST + 128 * q + 120
}

/// `v` after a click at `x` on the taskbar: the window whose button (120
/// wide, every 128 pixels) is there is focused.
pub open spec fn taskbar_clicked(v: WmView, x: int) -> WmView {
    let on = on_workspace(v.windows, v.workspace);
    let j = (x - TASKBAR_FIRST) / 128;
    if x >= TASKBAR_FIRST && (x - TASKBAR_FIRST) % 128 < 120 && j < on.len() {
        focused(v, on[j].id)
    } else {
        v
    }
}

/// `v` after one mouse sample at `(x, y)` with the left button `left`.
pub open spec fn mouse_handled(v: WmView, x: int, y: int, left: bool) -> WmView {
    let cx = clamp(x, 0, v.width - 1);
    let cy = clamp(y, 0, v.height - 1);
    let mdx = cx - v.cursor.0;
    let mdy = cy - v.cursor.1;
    let v1 = WmView {
        cursor: (cx as i32, cy as i32),
        hover: title_button_spec(v, cx, cy),
        prev_left: left,
        ..v
    };
    if left && !v.prev_left {
        let v2 = WmView { ripple: Some((cx as i32, cy as i32, v.frame)), ..v1 };
        if cy >= v.height - TASKBAR_H {
            taskbar_clicked(v2, cx)
        } else {
            match title_button_spec(v2, cx, cy) {
                Some((id, btn)) => pressed_button(v2, id, btn),
                None => drag_begun(v2, cx, cy),
            }
        }
    } else if !left && v.prev_left {
        WmView { drag: Drag::Idle, ..v1 }
    } else if left {
        drag_continued(v1, mdx, mdy)
    } else {
        v1
    }
}

impl Wm {
    /// Index of the top-most window on the current workspace at `(x, y)`.
    fn window_at(&self, x: i32, y: i32) -> (r: Option<usize>)
        requires
            self.wf(),
        ensures
            r is None ==> window_at_spec(self.windows@, self.workspace, x as int, y as int) is None,
            r is Some ==> window_at_spec(self.windows@, self.workspace, x as int, y as int) == Some(r->0 as int),
    {
        let n = self.windows.len();
        let mut i = n;
        while i > 0
            invariant
                self.wf(),
                n == self.windows@.len(),
                i <= n,
                forall|j: int| i <= j < n ==> !hits(#[trigger] self.windows@[j], self.workspace, x as int, y as int),
            decreases i,
        {
            let k = i - 1;
            assert(self.windows@[k as int].wf());
            let w = &self.windows[k];
            if w.workspace == self.workspace && x >= w.x && x < w.x + w.w && y >= w.y && y < w.y + w.h {
                proof {
                    assert(top_hit(self.windows@, self.workspace, x as int, y as int, k as int));
                    lemma_top_hit_unique(self.windows@, self.workspace, x as int, y as int, k as int);
                }
                return Some(k);
            }
            i = k;
        }
        proof {
            assert forall|k: int| !#[trigger] top_hit(self.windows@, self.workspace, x as int, y as int, k) by {
                if 0 <= k < n {
                    assert(!hits(self.windows@[k], self.workspace, x as int, y as int));
                }
            }
        }
        None
    }

    /// Which title button, if any, is under `(x, y)`, on the top-most
    /// window there.
    fn title_button_at(&self, x: i32, y: i32) -> (r: Option<(u32, TitleButton)>)
        requires
            self.wf(),
        ensures
            r == title_button_spec(self@, x as int, y as int),
    {
        match self.window_at(x, y) {
            None => None,
            Some(idx) => {
                assert(self.windows@[idx as int].wf());
                let w = &self.windows[idx];
                if y >= w.y + TITLE_H {
                    return None;
                }
                let right = w.x + w.w - BORDER;
                if x >= right - 3 * BTN_W && x < right - 2 * BTN_W {
                    Some((w.id, TitleButton::Minimize))
                } else if x >= right - 2 * BTN_W && x < right - BTN_W {
                    Some((w.id, TitleButton::Maximize))
                } else if x >= right - BTN_W && x < right {
                    Some((w.id, TitleButton::Close))
                } else {
                    None
                }
            },
        }
    }

    /// Start a drag at `(x, y)` (see [`drag_begun`]).
    fn begin_drag(&mut self, x: i32, y: i32)
        requires
            old(self).wf(),
            0 <= x < old(self).width,
            0 <= y < old(self).height,
        ensures
            final(self).wf(),
            final(self)@ == drag_begun(old(self)@, x as int, y as int),
    {
        let idx = match self.window_at(x, y) {
            Some(i) => i,
            None => {
                return;
            },
        };
        let ghost before = self.windows@;
        let win = self.windows.remove(idx);
        let id = win.id;
        let wx = win.x;
        let wy = win.y;
        let ww = win.w;
        let wh = win.h;
        assert(before[idx as int].wf());
        self.windows.push(win);
        proof {
            assert forall|i: int| 0 <= i < self.windows@.len() implies (#[trigger] self.windows@[i]).wf() by {
                if i < idx { assert(self.windows@[i] == before[i]); }
                else if i < self.windows@.len() - 1 { assert(self.windows@[i] == before[i + 1]); }
            }
        }
        let in_resize = x >= wx + ww - RESIZE_GRIP && y >= wy + wh - RESIZE_GRIP;
        let in_title = y < wy + TITLE_H;
        self.drag = if in_resize {
            Drag::Resize { id }
        } else if in_title {
            Drag::Move { id, dx: x - wx, dy: y - wy }
        } else {
            Drag::Idle
        };
    }

    /// Follow the held button (see [`drag_continued`]).
    fn continue_drag(&mut self, mdx: i32, mdy: i32)
        requires
            old(self).wf(),
            -SCREEN_MAX <= mdx <= SCREEN_MAX,
            -SCREEN_MAX <= mdy <= SCREEN_MAX,
        ensures
            final(self).wf(),
            final(self)@ == drag_continued(old(self)@, mdx as int, mdy as int),
    {
        let (cx, cy) = self.cursor;
        let width = self.width;
        let height = self.height;
        let ghost before = self.windows@;
        match self.drag {
            Drag::Move { id, dx, dy } => {
                match find_window(self, id) {
                    Some(k) => {
                        proof { lemma_first_id_unique(before, id, k as int); }
                        assert(before[k as int].wf());
                        self.windows[k].x = clamp_i32(cx - dx, 0, width - 40);
                        self.windows[k].y = clamp_i32(cy - dy, 0, height - TASKBAR_H - 20);
                        proof {
                            let f = |w: Window| Window {
                                x: clamp(cx - dx, 0, width - 40) as i32,
                                y: clamp(cy - dy, 0, height - TASKBAR_H - 20) as i32,
                                ..w };
                            assert(self.windows@ =~= before.update(k as int, f(before[k as int])));
                            assert forall|i: int| 0 <= i < self.windows@.len() implies (#[trigger] self.windows@[i]).wf() by {
                                assert(before[i].wf());
                            }
                        }
                    },
                    None => {},
                }
            },
            Drag::Resize { id } => {
                match find_window(self, id) {
                    Some(k) => {
                        proof { lemma_first_id_unique(before, id, k as int); }
                        assert(before[k as int].wf());
                        let w0 = self.windows[k].w + mdx;
                        let w1 = if w0 < MIN_W { MIN_W } else { w0 };
                        let wcap = width - self.windows[k].x;
                        let nw = if w1 > wcap { wcap } else { w1 };
                        let h0 = self.windows[k].h + mdy;
                        let h1 = if h0 < MIN_H { MIN_H } else { h0 };
                        let hcap = height - TASKBAR_H - self.windows[k].y;
                        let nh = if h1 > hcap { hcap } else { h1 };
                        self.windows[k].w = nw;
                        self.windows[k].h = nh;
                        proof {
                            let f = |w: Window| Window {
                                w: max_then_min(w.w + mdx, MIN_W as int, width - w.x) as i32,
                                h: max_then_min(w.h + mdy, MIN_H as int, height - TASKBAR_H - w.y) as i32,
                                ..w };
                            assert(self.windows@ =~= before.update(k as int, f(before[k as int])));
                            assert forall|i: int| 0 <= i < self.windows@.len() implies (#[trigger] self.windows@[i]).wf() by {
                                assert(before[i].wf());
                            }
                        }
                    },
                    None => {},
                }
            },
            Drag::Idle => {},
        }
    }
}

/// There is only one top-most window at a point.
proof fn lemma_top_hit_unique(ws: Seq<Window>, cur: u8, x: int, y: int, k: int)
    requires
        top_hit(ws, cur, x, y, k),
    ensures
        forall|j: int| #[trigger] top_hit(ws, cur, x, y, j) ==> j == k,
{
    assert forall|j: int| #[trigger] top_hit(ws, cur, x, y, j) implies j == k by {
        if j < k {
            assert(!hits(ws[k], cur, x, y));
        } else if j > k {
            assert(!hits(ws[j], cur, x, y));
        }
    }
}

impl Wm {
    /// Raise window `id` to the top, restoring it if minimized.
    fn focus(&mut self, id: u32)
        requires
            old(self).wf(),
        ensures
            final(self).wf(),
            final(self)@ == focused(old(self)@, id),
    {
        let ghost before = self.windows@;
        match find_window(self, id) {
            Some(idx) => {
                proof { lemma_first_id_unique(before, id, idx as int); }
                assert(before[idx as int].wf());
                if self.windows[idx].state == WinState::Minimized {
                    let (sx, sy, sw, sh) = self.windows[idx].saved;
                    self.windows[idx].x = sx;
                    self.windows[idx].y = sy;
                    self.windows[idx].w = sw;
                    self.windows[idx].h = sh;
                    self.windows[idx].state = WinState::Normal;
                }
                let ghost mid = self.windows@;
                assert(mid =~= before.update(idx as int, restored(before[idx as int])));
                let win = self.windows.remove(idx);
                self.windows.push(win);
                proof {
                    assert(self.windows@ =~= before.remove(idx as int).push(restored(before[idx as int])));
                    assert forall|i: int| 0 <= i < self.windows@.len() implies (#[trigger] self.windows@[i]).wf() by {
                        if i < idx { assert(self.windows@[i] == before[i]); }
                        else if i < self.windows@.len() - 1 { assert(self.windows@[i] == before[i + 1]); }
                    }
                }
            },
            None => {},
        }
    }

    /// Handle a click at `x` on the taskbar (see [`taskbar_clicked`]).
    fn taskbar_click(&mut self, x: i32)
        requires
            old(self).wf(),
            0 <= x < old(self).width,
        ensures
            final(self).wf(),
            final(self)@ == taskbar_clicked(old(self)@, x as int),
    {
        let ghost v0 = self@;
        let ghost f = |w: Window| w.workspace == v0.workspace;
        let ghost on = on_workspace(v0.windows, v0.workspace);
        let mut ids: Vec<u32> = Vec::new();
        let mut i: usize = 0;
        assert(v0.windows.take(0) =~= Seq::<Window>::empty());
        proof { reveal(Seq::filter); }
        while i < self.windows.len()
            invariant
                self@ == v0,
                i <= v0.windows.len(),
                f == (|w: Window| w.workspace == v0.workspace),
                ids@ == v0.windows.take(i as int).filter(f).map_values(|w: Window| w.id),
            decreases v0.windows.len() - i,
        {
            proof {
                reveal(Seq::filter);
                assert(v0.windows.take(i as int + 1).drop_last() =~= v0.windows.take(i as int));
                assert(v0.windows.take(i as int + 1).last() == v0.windows[i as int]);
            }
            if self.windows[i].workspace == self.workspace {
                let id = self.windows[i].id;
                let ghost before = ids@;
                ids.push(id);
                proof {
                    let t = v0.windows.take(i as int);
                    reveal(Seq::filter);
                    assert(t.push(v0.windows[i as int]).drop_last() =~= t);
                    assert(t.push(v0.windows[i as int]).filter(f) == t.filter(f).push(v0.windows[i as int]));
                    assert(ids@ =~= t.push(v0.windows[i as int]).filter(f).map_values(|w: Window| w.id));
                }
            } else {
                proof {
                    let t = v0.windows.take(i as int);
                    reveal(Seq::filter);
                    assert(t.push(v0.windows[i as int]).drop_last() =~= t);
                    assert(t.push(v0.windows[i as int]).filter(f) == t.filter(f));
                }
            }
            assert(v0.windows.take(i as int + 1) == v0.windows.take(i as int).push(v0.windows[i as int]));
            i = i + 1;
        }
        assert(v0.windows.take(i as int) =~= v0.windows);
        assert(ids@ == on.map_values(|w: Window| w.id));
        proof { v0.windows.lemma_filter_len(f); }
        let mut bx: i32 = 118 + 4 * 22 + 12;
        let mut j: usize = 0;
        while j < ids.len()
            invariant
                self.wf(),
                self@ == v0,
                v0 == old(self)@,
                on == on_workspace(v0.windows, v0.workspace),
                ids@ == on.map_values(|w: Window| w.id),
                on.len() <= MAX_WINDOWS,
                j <= ids@.len(),
                bx == TASKBAR_FIRST + 128 * j,
                0 <= x < v0.width,
                forall|q: int| 0 <= q < j ==> !#[trigger] in_task_button(x as int, q),
            decreases ids@.len() - j,
        {
            if x >= bx && x < bx + 120 {
                proof {
                    let jj = (x - TASKBAR_FIRST) / 128;
                    assert(jj == j && (x - TASKBAR_FIRST) % 128 < 120) by (nonlinear_arith)
                        requires TASKBAR_FIRST + 128 * j <= x < TASKBAR_FIRST + 128 * j + 120, jj == (x - TASKBAR_FIRST) / 128, j >= 0;
                    assert(ids@[j as int] == on[j as int].id);
                }
                self.focus(ids[j]);
                return;
            }
            assert(128 * (j + 1) == 128 * j + 128);
            bx = bx + 128;
            j = j + 1;
        }
        proof {
            let jj = (x - TASKBAR_FIRST) / 128;
            if x >= TASKBAR_FIRST && (x - TASKBAR_FIRST) % 128 < 120 && jj < on.len() {
                assert(TASKBAR_FIRST + 128 * jj <= x < TASKBAR_FIRST + 128 * jj + 120) by (nonlinear_arith)
                    requires jj == (x - TASKBAR_FIRST) / 128, x >= TASKBAR_FIRST, (x - TASKBAR_FIRST) % 128 < 120;
                assert(in_task_button(x as int, jj));
                assert(jj >= 0) by (nonlinear_arith)
                    requires jj == (x - TASKBAR_FIRST) / 128, x >= TASKBAR_FIRST;
                assert(false);
            }
        }
    }
}

/// Feed one mouse sample (absolute position and left button) into the
/// window manager (see [`mouse_handled`]).
pub fn handle_mouse(wm: &mut Wm, x: i32, y: i32, left: bool)
    requires
        old(wm).wf(),
    ensures
        final(wm).wf(),
        final(wm)@ == mouse_handled(old(wm)@, x as int, y as int, left),
{
    let (px, py) = wm.cursor;
    let cx = clamp_i32(x, 0, wm.width - 1);
    let cy = clamp_i32(y, 0, wm.height - 1);
    wm.cursor = (cx, cy);
    let mdx = cx - px;
    let mdy = cy - py;
    let hover = wm.title_button_at(cx, cy);
    wm.hover = hover;
    let pressed = left && !wm.prev_left;
    let released = !left && wm.prev_left;
    wm.prev_left = left;
    if pressed {
        let frame = wm.frame;
        wm.ripple = Some((cx, cy, frame));
        if cy >= wm.height - TASKBAR_H {
            wm.taskbar_click(cx);
        } else {
            match wm.title_button_at(cx, cy) {
                Some((id, btn)) => wm.press_button(id, btn),
                None => wm.begin_drag(cx, cy),
            }
        }
    } else if released {
        wm.drag = Drag::Idle;
    } else if left {
        wm.continue_drag(mdx, mdy);
    }
}

/// Law: focusing a window after minimizing it gives back its geometry
/// and puts it on top in the normal state.
pub proof fn lemma_minimize_then_focus(w: Window)
    requires
        w.state == WinState::Normal,
    ensures
        restored(minimized(w)) == (Window { saved: (w.x, w.y, w.w, w.h), ..w }),
{
}

/// Law: the window manager stays well formed (workspace below 4, cursor
/// on screen, geometry bounded) under every mouse sample.
pub proof fn lemma_workspace_bounded(wm: &Wm)
    requires
        wm.wf(),
    ensures
        wm.workspace < WORKSPACES,
        0 <= wm.cursor.0 < wm.width && 0 <= wm.cursor.1 < wm.height,
{
}

/// One channel of `color` (at bit `sh`) raised by `amount`, capped at 255.
pub open spec fn shifted_channel(color: u32, sh: u32, amount: u32) -> u32 {
    let c = ((color >> sh) & 0xFF) + amount;
    if c > 0xFF { 0xFF } else { c as u32 }
}

/// `color` with every channel raised by `amount`, capped at 255.
pub open spec fn shifted(color: u32, amount: u32) -> u32 {
    (shifted_channel(color, 16, amount) << 16u32) | (shifted_channel(color, 8, amount) << 8u32) | shifted_channel(color, 0, amount)
}

/// Lighten a colour by `amount` per channel, each capped at 255.
pub fn shift(color: u32, amount: u32) -> (c: u32)
    requires
        amount <= u32::MAX - 0xFF,
    ensures
        c == shifted(color, amount),
{
    let r0 = (color >> 16) & 0xFF;
    let g0 = (color >> 8) & 0xFF;
    let b0 = color & 0xFF;
    assert(r0 <= 0xFF && g0 <= 0xFF && b0 <= 0xFF) by (bit_vector)
        requires r0 == (color >> 16) & 0xFF, g0 == (color >> 8) & 0xFF, b0 == color & 0xFF;
    let r = if r0 + amount > 0xFF { 0xFF } else { r0 + amount };
    let g = if g0 + amount > 0xFF { 0xFF } else { g0 + amount };
    let b = if b0 + amount > 0xFF { 0xFF } else { b0 + amount };
    assert(color >> 0u32 == color) by (bit_vector);
    (r << 16) | (g << 8) | b
}

/// How many pixels row `dy` (counted from the nearest corner) of a rounded
/// rectangle with corner `radius` is inset: `radius - isqrt(radius^2 -
/// (radius - 1 - dy)^2)`, or 0 outside the corner rows.
pub open spec fn inset_spec(dy: int, radius: int) -> int {
    if radius <= 0 || dy >= radius {
        0
    } else {
        let d = radius - 1 - dy;
        let inner = radius * radius - d * d;
        let s = crate::gfx::isqrt_of(if inner < 0 { 0 } else { inner });
        if radius - s < 0 { 0 } else { radius - s }
    }
}

/// Horizontal inset of a rounded corner at row `dy` (see [`inset_spec`]).
fn corner_inset(dy: i32, radius: i32) -> (r: i32)
    requires
        0 <= dy,
        radius <= 0x1000,
    ensures
        r == inset_spec(dy as int, radius as int),
        0 <= r <= (if radius < 0 { 0 } else { radius as int }),
{
    if radius <= 0 || dy >= radius {
        return 0;
    }
    let d = radius - 1 - dy;
    assert(0 <= radius * radius <= 0x100_0000 && 0 <= d * d <= 0x100_0000) by (nonlinear_arith)
        requires 0 < radius <= 0x1000, 0 <= dy < radius, d == radius - 1 - dy;
    let r2 = (radius * radius) as i64;
    let inner = r2 - (d * d) as i64;
    let arg: u64 = if inner < 0 { 0 } else { inner as u64 };
    let s0 = isqrt(arg);
    proof {
        crate::gfx::lemma_isqrt_unique(arg as int, s0 as int, crate::gfx::isqrt_of(arg as int));
        assert(s0 <= 0x1000) by (nonlinear_arith)
            requires s0 * s0 <= arg, arg <= 0x100_0000, s0 >= 0;
    }
    let s = s0 as i32;
    if radius - s < 0 { 0 } else { radius - s }
}

/// The inset of row `row` of an `h`-row rectangle with corner `radius`.
pub open spec fn row_inset(row: int, h: int, radius: int) -> int {
    if row < radius { inset_spec(row, radius) } else if row >= h - radius { inset_spec(h - 1 - row, radius) } else { 0 }
}

/// The pixels after filling the first `n` rows of a rounded rectangle, one
/// inset span per row.
pub open spec fn rounded_rows(p: Seq<u32>, cw: int, ch: int, x: int, y: int, w: int, h: int, radius: int, color: u32, n: int) -> Seq<u32>
    decreases n,
{
    if n <= 0 {
        p
    } else {
        let q = rounded_rows(p, cw, ch, x, y, w, h, radius, color, n - 1);
        let i = row_inset(n - 1, h, radius);
        crate::gfx::rect_filled(q, cw, ch, x + i, y + n - 1, w - 2 * i, 1, color)
    }
}

/// The pixels after outlining the first `n` rows of a rounded rectangle:
/// on a corner row a `t1`-wide piece at each inset edge, elsewhere a
/// `thickness`-wide piece at each side.
pub open spec fn outline_rows(p: Seq<u32>, cw: int, ch: int, x: int, y: int, w: int, h: int, radius: int, thickness: int, color: u32, n: int) -> Seq<u32>
    decreases n,
{
    if n <= 0 {
        p
    } else {
        let q = outline_rows(p, cw, ch, x, y, w, h, radius, thickness, color, n - 1);
        let row = n - 1;
        let i = row_inset(row, h, radius);
        let t1 = if thickness < 1 { 1 } else { thickness };
        if row < radius || row >= h - radius {
            let a = crate::gfx::rect_filled(q, cw, ch, x + i, y + row, t1, 1, color);
            crate::gfx::rect_filled(a, cw, ch, x + w - i - t1, y + row, t1, 1, color)
        } else {
            let a = crate::gfx::rect_filled(q, cw, ch, x, y + row, thickness, 1, color);
            crate::gfx::rect_filled(a, cw, ch, x + w - thickness, y + row, thickness, 1, color)
        }
    }
}

/// Fill a rectangle with rounded corners.
fn fill_rounded(canvas: &mut Canvas, x: i32, y: i32, w: i32, h: i32, radius: i32, color: Color)
    requires
        old(canvas).wf(),
        -GEOM - 16 <= x <= GEOM + 16 && -GEOM - 16 <= y <= GEOM + 16 && in_size(w as int) && in_size(h as int),
        0 <= radius <= 8,
    ensures
        final(canvas).wf(),
        final(canvas).width == old(canvas).width,
        final(canvas).height == old(canvas).height,
        final(canvas).pixels@.len() == old(canvas).pixels@.len(),
        radius == 0 ==> final(canvas).pixels@ == crate::gfx::rect_filled(old(canvas).pixels@, old(canvas).width as int,
            old(canvas).height as int, x as int, y as int, w as int, h as int, color),
        radius > 0 ==> final(canvas).pixels@ == rounded_rows(old(canvas).pixels@, old(canvas).width as int,
            old(canvas).height as int, x as int, y as int, w as int, h as int, radius as int, color,
            if h < 0 { 0 } else { h as int }),
{
    if radius <= 0 {
        canvas.fill_rect(x, y, w, h, color);
        return;
    }
    let ghost c0 = *canvas;
    let mut row: i32 = 0;
    while row < h
        invariant
            canvas.wf(),
            canvas.width == c0.width && canvas.height == c0.height && canvas.pixels@.len() == c0.pixels@.len(),
            -GEOM - 16 <= x <= GEOM + 16 && -GEOM - 16 <= y <= GEOM + 16 && in_size(w as int) && in_size(h as int),
            1 <= radius <= 8,
            0 <= row,
            row <= h || h < 0,
            h < 0 ==> row == 0,
            canvas.pixels@ == rounded_rows(c0.pixels@, c0.width as int, c0.height as int, x as int, y as int, w as int,
                h as int, radius as int, color, row as int),
        decreases h - row,
    {
        let inset = if row < radius {
            corner_inset(row, radius)
        } else if row >= h - radius {
            corner_inset(h - 1 - row, radius)
        } else {
            0
        };
        canvas.fill_rect(x + inset, y + row, w - 2 * inset, 1, color);
        row = row + 1;
    }
    assert(row as int == (if h < 0 { 0 } else { h as int }));
    assert(c0 == *old(canvas));
}

/// The buffer after `rect_outline(x, y, w, h, t, color)`: top, bottom,
/// left and right bands of width `t`.
pub open spec fn outline_rect(p: Seq<u32>, cw: int, ch: int, x: int, y: int, w: int, h: int, t: int, color: u32) -> Seq<u32> {
    let p1 = crate::gfx::rect_filled(p, cw, ch, x, y, w, t, color);
    let p2 = crate::gfx::rect_filled(p1, cw, ch, x, y + h - t, w, t, color);
    let p3 = crate::gfx::rect_filled(p2, cw, ch, x, y, t, h, color);
    crate::gfx::rect_filled(p3, cw, ch, x + w - t, y, t, h, color)
}

/// The buffer after `fill_rounded(x, y, w, h, radius, color)`.
pub open spec fn rounded_filled(p: Seq<u32>, cw: int, ch: int, x: int, y: int, w: int, h: int, radius: int, color: u32) -> Seq<u32> {
    if radius == 0 {
        crate::gfx::rect_filled(p, cw, ch, x, y, w, h, color)
    } else {
        rounded_rows(p, cw, ch, x, y, w, h, radius, color, if h < 0 { 0 } else { h })
    }
}

/// The buffer after `outline_rounded(x, y, w, h, radius, t, color)`.
pub open spec fn rounded_outlined(p: Seq<u32>, cw: int, ch: int, x: int, y: int, w: int, h: int, radius: int, t: int, color: u32) -> Seq<u32> {
    if radius == 0 {
        outline_rect(p, cw, ch, x, y, w, h, t, color)
    } else {
        let rows = outline_rows(p, cw, ch, x, y, w, h, radius, t, color, if h < 0 { 0 } else { h });
        let top = crate::gfx::rect_filled(rows, cw, ch, x + radius, y, w - 2 * radius, t, color);
        crate::gfx::rect_filled(top, cw, ch, x + radius, y + h - t, w - 2 * radius, t, color)
    }
}

/// Outline a rounded rectangle with a `thickness`-pixel border.
fn outline_rounded(canvas: &mut Canvas, x: i32, y: i32, w: i32, h: i32, radius: i32, thickness: i32, color: Color)
    requires
        old(canvas).wf(),
        in_geom(x as int) && in_geom(y as int) && in_size(w as int) && in_size(h as int),
        0 <= radius <= 8,
        0 <= thickness <= 8,
    ensures
        final(canvas).wf(),
        final(canvas).width == old(canvas).width,
        final(canvas).height == old(canvas).height,
        final(canvas).pixels@.len() == old(canvas).pixels@.len(),
        radius == 0 ==> final(canvas).pixels@ == outline_rect(old(canvas).pixels@, old(canvas).width as int,
            old(canvas).height as int, x as int, y as int, w as int, h as int, thickness as int, color),
        radius > 0 ==> ({
            let (cw, ch) = (old(canvas).width as int, old(canvas).height as int);
            let rows = outline_rows(old(canvas).pixels@, cw, ch, x as int, y as int, w as int, h as int, radius as int,
                thickness as int, color, if h < 0 { 0 } else { h as int });
            let top = crate::gfx::rect_filled(rows, cw, ch, x + radius, y as int, w - 2 * radius, thickness as int, color);
            final(canvas).pixels@ == crate::gfx::rect_filled(top, cw, ch, x + radius, y + h - thickness,
                w - 2 * radius, thickness as int, color)
        }),
{
    if radius <= 0 {
        canvas.rect_outline(x, y, w, h, thickness, color);
        return;
    }
    let ghost c0 = *canvas;
    let t1 = if thickness < 1 { 1 } else { thickness };
    let mut row: i32 = 0;
    while row < h
        invariant
            canvas.wf(),
            canvas.width == c0.width && canvas.height == c0.height && canvas.pixels@.len() == c0.pixels@.len(),
            in_geom(x as int) && in_geom(y as int) && in_size(w as int) && in_size(h as int),
            1 <= radius <= 8,
            0 <= thickness <= 8,
            1 <= t1 <= 8,
            t1 == (if thickness < 1 { 1int } else { thickness as int }),
            0 <= row,
            row <= h || h < 0,
            h < 0 ==> row == 0,
            canvas.pixels@ == outline_rows(c0.pixels@, c0.width as int, c0.height as int, x as int, y as int, w as int,
                h as int, radius as int, thickness as int, color, row as int),
        decreases h - row,
    {
        let inset = if row < radius {
            corner_inset(row, radius)
        } else if row >= h - radius {
            corner_inset(h - 1 - row, radius)
        } else {
            0
        };
        let on_curve = row < radius || row >= h - radius;
        if on_curve {
            canvas.fill_rect(x + inset, y + row, t1, 1, color);
            canvas.fill_rect(x + w - inset - t1, y + row, t1, 1, color);
        } else {
            canvas.fill_rect(x, y + row, thickness, 1, color);
            canvas.fill_rect(x + w - thickness, y + row, thickness, 1, color);
        }
        row = row + 1;
    }
    assert(row as int == (if h < 0 { 0 } else { h as int }));
    assert(c0 == *old(canvas));
    canvas.fill_rect(x + radius, y, w - 2 * radius, thickness, color);
    canvas.fill_rect(x + radius, y + h - thickness, w - 2 * radius, thickness, color);
}

/// The click ripple of `wm` drawn over `p`: while animations are on and a
/// ripple started at most 8 frames ago, a circle outline of radius
/// `4 + 4 * age` around the click, if it lies within the geometry bound.
pub open spec fn ripple_drawn(wm: Wm, p: Seq<u32>, cw: int, ch: int, color: u32) -> Seq<u32> {
    match wm.ripple {
        Some((rx, ry, start)) => {
            let age: int = if wm.frame >= start { wm.frame - start } else { 0 };
            let r = 4 + age * 4;
            if wm.animations && age <= 8 && rx - r >= -GEOM && rx + r <= GEOM && ry - r >= -GEOM && ry + r <= GEOM {
                crate::gfx::ellipse_rows(p, cw, ch, rx - r, ry - r, 2 * r, 2 * r, color, false, (2 * ((2 * r) / 2) + 1) as nat)
            } else {
                p
            }
        },
        None => p,
    }
}

/// One cell of the arrow cursor: cell `dx` of row `dy`, an `s`-pixel square,
/// in the border colour on the outline of the triangle and the body colour
/// inside.
pub open spec fn cursor_cell(p: Seq<u32>, cw: int, ch: int, cx: int, cy: int, s: int, border: u32, body: u32, dy: int, dx: int) -> Seq<u32> {
    let edge = dx == 0 || dx == 11 - dy || dy == 0;
    crate::gfx::rect_filled(p, cw, ch, cx + dx * s, cy + dy * s, s, s, if edge { border } else { body })
}

/// The first `n` cells of cursor row `dy` drawn over `p`.
pub open spec fn cursor_row(p: Seq<u32>, cw: int, ch: int, cx: int, cy: int, s: int, border: u32, body: u32, dy: int, n: nat) -> Seq<u32>
    decreases n,
{
    if n == 0 {
        p
    } else {
        cursor_cell(cursor_row(p, cw, ch, cx, cy, s, border, body, dy, (n - 1) as nat), cw, ch, cx, cy, s, border, body, dy, n - 1)
    }
}

/// The first `m` rows of the arrow cursor (row `dy` holds `12 - dy` cells)
/// drawn over `p`.
pub open spec fn cursor_drawn(p: Seq<u32>, cw: int, ch: int, cx: int, cy: int, s: int, border: u32, body: u32, m: nat) -> Seq<u32>
    decreases m,
{
    if m == 0 {
        p
    } else {
        let q = cursor_drawn(p, cw, ch, cx, cy, s, border, body, (m - 1) as nat);
        cursor_row(q, cw, ch, cx, cy, s, border, body, m - 1, (12 - (m - 1)) as nat)
    }
}

/// The id of the last window among the first `n` of `ws` that is on
/// workspace `cur` and not minimized: the topmost visible one.
pub open spec fn top_on(ws: Seq<Window>, cur: u8, n: int) -> Option<u32>
    decreases n,
{
    if n <= 0 {
        None
    } else if ws[n - 1].workspace == cur && ws[n - 1].state != WinState::Minimized {
        Some(ws[n - 1].id)
    } else {
        top_on(ws, cur, n - 1)
    }
}

/// The first `n` workspace switcher buttons on the taskbar at row `y`:
/// button `k` at x = 118 + 22 k, labelled with digit `k + 1`, in the active
/// colours for the current workspace `cur`.
pub open spec fn workspace_buttons(p: Seq<u32>, cw: int, ch: int, y: int, cur: u8, th: Theme, n: int) -> Seq<u32>
    decreases n,
{
    if n <= 0 {
        p
    } else {
        let q = workspace_buttons(p, cw, ch, y, cur, th, n - 1);
        let k = n - 1;
        let wx = 118 + 22 * k;
        let sel = k == cur;
        let bg = if sel { th.win_title_active } else { th.win_title_inactive };
        let tc = if sel { th.title_text } else { th.text };
        let q1 = crate::gfx::rect_filled(q, cw, ch, wx, y + 5, 18, TASKBAR_H - 10, bg);
        crate::gfx::text_drawn(q1, cw, ch, wx + 5, y + 6, seq![((49 + k) as u8) as char], tc, wx + 18, 1).0
    }
}

/// The taskbar buttons of the first `n` windows of `ws` that are on
/// workspace `cur`, with the x where the next button goes: each 120 wide
/// every 128 pixels from `TASKBAR_FIRST`, the window `top` highlighted and
/// minimized ones in the taskbar colour, labelled with the window title.
pub open spec fn task_buttons(p: Seq<u32>, cw: int, ch: int, y: int, ws: Seq<Window>, cur: u8, top: Option<u32>, th: Theme, n: int) -> (Seq<u32>, int)
    decreases n,
{
    if n <= 0 {
        (p, TASKBAR_FIRST as int)
    } else {
        let (q, bx) = task_buttons(p, cw, ch, y, ws, cur, top, th, n - 1);
        let win = ws[n - 1];
        if win.workspace == cur {
            let is_top = top == Some(win.id);
            let bg = if win.state == WinState::Minimized {
                th.taskbar_bg
            } else if is_top {
                th.win_title_active
            } else {
                th.win_title_inactive
            };
            let tc = if is_top { th.title_text } else { th.text };
            let q1 = crate::gfx::rect_filled(q, cw, ch, bx, y + 4, 120, TASKBAR_H - 8, bg);
            (crate::gfx::text_drawn(q1, cw, ch, bx + 6, y + 6, win.title@, tc, bx + 118, win.title@.len()).0, bx + 128)
        } else {
            (q, bx)
        }
    }
}

/// The taskbar of `wm` drawn over `p`: background with an accent top line,
/// the system name, the workspace switcher, the window buttons and the
/// theme's name at the right.
pub open spec fn taskbar_drawn(wm: Wm, p: Seq<u32>, cw: int, ch: int, th: Theme) -> Seq<u32> {
    let y = wm.height - TASKBAR_H;
    let a = crate::gfx::rect_filled(p, cw, ch, 0, y, wm.width as int, TASKBAR_H as int, th.taskbar_bg);
    let b = crate::gfx::rect_filled(a, cw, ch, 0, y, wm.width as int, 1, th.accent);
    let name = "Buitenzorg"@;
    let c = crate::gfx::text_drawn(b, cw, ch, 8, y + 6, name, th.accent, 130, name.len()).0;
    let d = workspace_buttons(c, cw, ch, y, wm.workspace, th, WORKSPACES as int);
    let n = wm.windows@.len() as int;
    let e = task_buttons(d, cw, ch, y, wm.windows@, wm.workspace, top_on(wm.windows@, wm.workspace, n), th, n).0;
    crate::gfx::text_drawn(e, cw, ch, wm.width - 150, y + 6, th.name@, th.accent, wm.width - 6, th.name@.len()).0
}

/// The `k`-th title-bar button (minimize, maximize, close).
pub open spec fn button_kind(k: int) -> TitleButton {
    if k == 0 { TitleButton::Minimize } else if k == 1 { TitleButton::Maximize } else { TitleButton::Close }
}

/// A click lands on the button that is drawn under it: on the top-most
/// window, a point of the title bar within the slot where button `k` is
/// drawn (`BTN_W` wide, `3 - k` slots from the right edge inside the
/// border) hits button `k` of that window: the left-most slot minimizes,
/// the middle one maximizes, the right-most one closes. No other point of
/// that window hits a button.
pub proof fn lemma_click_hits_drawn_button(v: WmView, x: int, y: int, i: int)
    requires
        window_at_spec(v.windows, v.workspace, x, y) == Some(i),
    ensures
        ({
            let w = v.windows[i];
            let right = w.x + w.w - BORDER;
            &&& forall|k: int| 0 <= k < 3 && y < w.y + TITLE_H && right - (3 - k) * BTN_W <= x < right - (2 - k) * BTN_W
                ==> title_button_spec(v, x, y) == Some((w.id, #[trigger] button_kind(k)))
            &&& y < w.y + TITLE_H && right - BTN_W <= x < right ==> title_button_spec(v, x, y) == Some((w.id, TitleButton::Close))
            &&& y < w.y + TITLE_H && right - 2 * BTN_W <= x < right - BTN_W
                ==> title_button_spec(v, x, y) == Some((w.id, TitleButton::Maximize))
            &&& y < w.y + TITLE_H && right - 3 * BTN_W <= x < right - 2 * BTN_W
                ==> title_button_spec(v, x, y) == Some((w.id, TitleButton::Minimize))
            &&& !(y < w.y + TITLE_H && right - 3 * BTN_W <= x < right) ==> title_button_spec(v, x, y) is None
        }),
{
}

/// Title-bar button `k` of `win` drawn over `q`: a highlight when the
/// pointer hovers it (red for close), then its glyph (a bar, a square, or a
/// cross) in `fg`, or white on a hovered close button.
pub open spec fn title_button_drawn(wm: Wm, win: Window, th: Theme, fg: u32, q: Seq<u32>, cw: int, ch: int, k: int) -> Seq<u32> {
    let ty = win.y + BORDER;
    let bx = win.x + win.w - BORDER - (3 - k) * BTN_W;
    let btn = button_kind(k);
    let hovered = match wm.hover { Some((hid, hb)) => hid == win.id && hb == btn, None => false };
    let hl = if btn == TitleButton::Close { 0xE0483Bu32 } else { shifted(th.win_title_active, 40) };
    let q1 = if hovered { crate::gfx::rect_filled(q, cw, ch, bx, ty, BTN_W as int, TITLE_H - 1, hl) } else { q };
    let cx = bx + BTN_W / 2;
    let cy = ty + TITLE_H / 2;
    let c = if hovered && btn == TitleButton::Close { 0xFFFFFFu32 } else { fg };
    match btn {
        TitleButton::Minimize => crate::gfx::rect_filled(q1, cw, ch, cx - 4, cy + 4, 8, 2, c),
        TitleButton::Maximize => {
            let p1 = crate::gfx::rect_filled(q1, cw, ch, cx - 5, cy - 5, 10, 1, c);
            let p2 = crate::gfx::rect_filled(p1, cw, ch, cx - 5, cy + 4, 10, 1, c);
            let p3 = crate::gfx::rect_filled(p2, cw, ch, cx - 5, cy - 5, 1, 10, c);
            crate::gfx::rect_filled(p3, cw, ch, cx + 4, cy - 5, 1, 10, c)
        },
        TitleButton::Close => {
            let l1 = crate::gfx::line_drawn(q1, cw, ch, cx - 4, cy - 4, cx + 4, cy + 4, c);
            crate::gfx::line_drawn(l1, cw, ch, cx + 4, cy - 4, cx - 4, cy + 4, c)
        },
    }
}

/// The first `n` title-bar buttons of `win` drawn over `q`.
pub open spec fn title_buttons_drawn(wm: Wm, win: Window, th: Theme, fg: u32, q: Seq<u32>, cw: int, ch: int, n: int) -> Seq<u32>
    decreases n,
{
    if n <= 0 {
        q
    } else {
        title_button_drawn(wm, win, th, fg, title_buttons_drawn(wm, win, th, fg, q, cw, ch, n - 1), cw, ch, n - 1)
    }
}

/// Row `row` of an app canvas blitted at `(ox, oy)`, its first `n` pixels.
pub open spec fn app_row(p: Seq<u32>, cw: int, ch: int, ox: int, oy: int, app: AppCanvas, row: int, n: int) -> Seq<u32>
    decreases n,
{
    if n <= 0 {
        p
    } else {
        let col = n - 1;
        crate::gfx::line_put(app_row(p, cw, ch, ox, oy, app, row, n - 1), cw, ch, ox + col, oy + row,
            app.pixels@[row * app.w + col])
    }
}

/// The first `n` rows of an app canvas blitted at `(ox, oy)`, `w` pixels of
/// each.
pub open spec fn app_rows(p: Seq<u32>, cw: int, ch: int, ox: int, oy: int, app: AppCanvas, w: int, n: int) -> Seq<u32>
    decreases n,
{
    if n <= 0 {
        p
    } else {
        app_row(app_rows(p, cw, ch, ox, oy, app, w, n - 1), cw, ch, ox, oy, app, n - 1, w)
    }
}

/// How many text lines of `win` fit its body: one every 19 pixels from 8
/// below the title bar while the line's top stays 6 above the bottom edge.
pub open spec fn lines_shown(win: Window) -> int {
    let y0 = win.y + TITLE_H + 8;
    let bottom = win.y + win.h - 6;
    let fit = if y0 > bottom { 0 } else { (bottom - y0) / 19 + 1 };
    if fit < win.lines@.len() { fit } else { win.lines@.len() as int }
}

/// The first `n` text lines of `win` drawn over `p`.
pub open spec fn lines_drawn(p: Seq<u32>, cw: int, ch: int, win: Window, color: u32, n: int) -> Seq<u32>
    decreases n,
{
    if n <= 0 {
        p
    } else {
        let k = n - 1;
        let line = win.lines@[k]@;
        crate::gfx::text_drawn(lines_drawn(p, cw, ch, win, color, n - 1), cw, ch, win.x + 8, win.y + TITLE_H + 8 + 19 * k,
            line, color, win.x + win.w - 6, line.len()).0
    }
}

/// The first `n` squares of the resize grip, climbing from the
/// bottom-right corner.
pub open spec fn grip_drawn(p: Seq<u32>, cw: int, ch: int, win: Window, color: u32, n: int) -> Seq<u32>
    decreases n,
{
    if n <= 0 {
        p
    } else {
        let i = n - 1;
        crate::gfx::rect_filled(grip_drawn(p, cw, ch, win, color, n - 1), cw, ch, win.x + win.w - 4 - i * 4,
            win.y + win.h - 4 - i * 4, 3, 3, color)
    }
}

/// The title bar of `win` in style `th.title_style`, over `p`.
pub open spec fn title_bar_drawn(p: Seq<u32>, cw: int, ch: int, win: Window, th: Theme, bg: u32, fg: u32) -> Seq<u32> {
    let bt = th.border_thickness as int;
    let title = win.title@;
    match th.title_style {
        TitleStyle::Tab => {
            let half = win.w / 2;
            let tab_w = if half < 180 { if half < 80 { 80 } else { half } } else { 180 };
            let q = crate::gfx::rect_filled(p, cw, ch, win.x + bt, win.y + bt, tab_w, TITLE_H as int, bg);
            crate::gfx::text_drawn(q, cw, ch, win.x + 8, win.y + 5, title, fg, win.x + tab_w, title.len()).0
        },
        TitleStyle::Beveled => {
            let light = shifted(bg, 60);
            let q1 = crate::gfx::rect_filled(p, cw, ch, win.x + bt, win.y + bt, win.w - 2 * bt, TITLE_H as int, bg);
            let q2 = crate::gfx::rect_filled(q1, cw, ch, win.x + bt, win.y + bt, win.w - 2 * bt, 2, light);
            let q3 = crate::gfx::rect_filled(q2, cw, ch, win.x + bt, win.y + bt, 2, TITLE_H as int, light);
            let q4 = crate::gfx::rect_filled(q3, cw, ch, win.x + bt, win.y + bt + TITLE_H - 2, win.w - 2 * bt, 2, th.win_border);
            crate::gfx::text_drawn(q4, cw, ch, win.x + 8, win.y + 5, title, fg, win.x + win.w - 8, title.len()).0
        },
        TitleStyle::Flat => {
            let q = crate::gfx::rect_filled(p, cw, ch, win.x + bt, win.y + bt, win.w - 2 * bt, TITLE_H as int, bg);
            crate::gfx::text_drawn(q, cw, ch, win.x + 8, win.y + 5, title, fg, win.x + win.w - 3 * BTN_W - 4, title.len()).0
        },
    }
}

/// Window `win` drawn over `p`: shadow, rounded body and border, title bar,
/// buttons, then its app canvas (clipped to the body) or its text lines,
/// and the resize grip.
pub open spec fn window_drawn(wm: Wm, win: Window, th: Theme, active: bool, radius: int, p: Seq<u32>, cw: int, ch: int) -> Seq<u32> {
    let shadowed = match th.shadow_style {
        ShadowStyle::NoShadow => p,
        ShadowStyle::Soft => rounded_filled(p, cw, ch, win.x + 4, win.y + 5, win.w as int, win.h as int, radius, th.shadow),
        ShadowStyle::HardOffset => crate::gfx::rect_filled(p, cw, ch, win.x + 8, win.y + 8, win.w as int, win.h as int, th.shadow),
    };
    let body = rounded_filled(shadowed, cw, ch, win.x as int, win.y as int, win.w as int, win.h as int, radius, th.win_body);
    let framed = rounded_outlined(body, cw, ch, win.x as int, win.y as int, win.w as int, win.h as int, radius,
        th.border_thickness as int, th.win_border);
    let bg = if active { th.win_title_active } else { th.win_title_inactive };
    let fg = if active { th.title_text } else { th.text };
    let titled = title_bar_drawn(framed, cw, ch, win, th, bg, fg);
    let buttons = title_buttons_drawn(wm, win, th, fg, titled, cw, ch, 3);
    let content = match win.canvas {
        Some(app) => {
            let vw = if app.w < win.w - 2 * BORDER { app.w as int } else { win.w - 2 * BORDER };
            let vh = if app.h < win.h - TITLE_H - 2 * BORDER { app.h as int } else { win.h - TITLE_H - 2 * BORDER };
            app_rows(buttons, cw, ch, win.x + BORDER, win.y + BORDER + TITLE_H, app,
                if vw < 0 { 0 } else { vw }, if vh < 0 { 0 } else { vh })
        },
        None => lines_drawn(buttons, cw, ch, win, th.text, lines_shown(win)),
    };
    grip_drawn(content, cw, ch, win, th.win_title_active, 3)
}

/// The first `n` windows of `wm` drawn over `p`: those of the current
/// workspace that are not minimized, back to front, the window `top` active.
pub open spec fn windows_drawn(wm: Wm, th: Theme, radius: int, top: Option<u32>, p: Seq<u32>, cw: int, ch: int, n: int) -> Seq<u32>
    decreases n,
{
    if n <= 0 {
        p
    } else {
        let q = windows_drawn(wm, th, radius, top, p, cw, ch, n - 1);
        let win = wm.windows@[n - 1];
        if win.workspace == wm.workspace && win.state != WinState::Minimized {
            window_drawn(wm, win, th, top == Some(win.id), radius, q, cw, ch)
        } else {
            q
        }
    }
}

/// The desktop of `wm` composed over `p`: the wallpaper, the windows, the
/// taskbar, the click ripple and the cursor.
pub open spec fn composed(wm: Wm, th: Theme, wallpaper: Wallpaper, p: Seq<u32>, cw: int, ch: int) -> Seq<u32> {
    let back = crate::wallpaper::painted(wallpaper, p, th, wm.workspace, cw, ch);
    let radius: int = if wm.rounded && th.title_style != TitleStyle::Beveled { 8 } else { 0 };
    let n = wm.windows@.len() as int;
    let wins = windows_drawn(wm, th, radius, top_on(wm.windows@, wm.workspace, n), back, cw, ch, n);
    let bar = taskbar_drawn(wm, wins, cw, ch, th);
    let rip = ripple_drawn(wm, bar, cw, ch, th.accent);
    cursor_drawn(rip, cw, ch, wm.cursor.0 as int, wm.cursor.1 as int, wm.cursor_scale as int, th.win_border, th.cursor, 12)
}

/// The drawing surface keeps its size through a compositing step.
pub open spec fn same_surface(a: Canvas, b: Canvas) -> bool {
    &&& b.wf()
    &&& b.width == a.width
    &&& b.height == a.height
    &&& b.pixels@.len() == a.pixels@.len()
}

impl Wm {
    /// Draw the three title-bar buttons of `win`, highlighting a hovered one.
    fn draw_title_buttons(&self, canvas: &mut Canvas, win: &Window, th: &Theme, fg: Color)
        requires
            self.wf(),
            win.wf(),
            old(canvas).wf(),
        ensures
            same_surface(*old(canvas), *final(canvas)),
            final(canvas).pixels@ == title_buttons_drawn(*self, *win, *th, fg, old(canvas).pixels@,
                old(canvas).width as int, old(canvas).height as int, 3),
    {
        let ty = win.y + BORDER;
        let right = win.x + win.w - BORDER;
        let mut i: i32 = 0;
        let ghost c0 = *canvas;
        while i < 3
            invariant
                same_surface(c0, *canvas),
                win.wf(),
                0 <= i <= 3,
                ty == win.y + BORDER,
                right == win.x + win.w - BORDER,
                canvas.pixels@ == title_buttons_drawn(*self, *win, *th, fg, c0.pixels@, c0.width as int, c0.height as int, i as int),
            decreases 3 - i,
        {
            let bx = right - (3 - i) * BTN_W;
            let btn = if i == 0 { TitleButton::Minimize } else if i == 1 { TitleButton::Maximize } else { TitleButton::Close };
            let hovered = match self.hover {
                Some((hid, hb)) => hid == win.id && hb == btn,
                None => false,
            };
            if hovered {
                let hl = if btn == TitleButton::Close { crate::gfx::rgb(0xE0, 0x48, 0x3B) } else { shift(th.win_title_active, 40) };
                canvas.fill_rect(bx, ty, BTN_W, TITLE_H - 1, hl);
            }
            let cx = bx + BTN_W / 2;
            let cy = ty + TITLE_H / 2;
            let c = if hovered && btn == TitleButton::Close { crate::gfx::rgb(0xFF, 0xFF, 0xFF) } else { fg };
            match btn {
                TitleButton::Minimize => canvas.fill_rect(cx - 4, cy + 4, 8, 2, c),
                TitleButton::Maximize => canvas.rect_outline(cx - 5, cy - 5, 10, 10, 1, c),
                TitleButton::Close => {
                    canvas.draw_line(cx - 4, cy - 4, cx + 4, cy + 4, c);
                    canvas.draw_line(cx + 4, cy - 4, cx - 4, cy + 4, c);
                },
            }
            i = i + 1;
        }
    }

    /// The click ripple: a circle growing for 8 frames.
    fn draw_ripple(&self, canvas: &mut Canvas, th: &Theme)
        requires
            self.wf(),
            old(canvas).wf(),
        ensures
            same_surface(*old(canvas), *final(canvas)),
            final(canvas).pixels@ == ripple_drawn(*self, old(canvas).pixels@, old(canvas).width as int,
                old(canvas).height as int, th.accent),
    {
        if !self.animations {
            return;
        }
        match self.ripple {
            Some((rx, ry, start)) => {
                let age64 = self.frame.saturating_sub(start);
                if age64 <= 8 {
                    let age = age64 as i32;
                    let r = 4 + age * 4;
                    if rx - r >= -GEOM && rx + r <= GEOM && ry - r >= -GEOM && ry + r <= GEOM {
                        assert((2 * r / 2) * (2 * r / 2) * ((2 * r / 2) * (2 * r / 2)) <= i64::MAX) by (nonlinear_arith)
                            requires 4 <= r <= 36;
                        canvas.ellipse(rx - r, ry - r, 2 * r, 2 * r, th.accent, false);
                    }
                }
            },
            None => {},
        }
    }

    /// The taskbar: background, name, workspace switcher, one button per
    /// window of the current workspace (the top one highlighted, minimized
    /// ones dimmed) and the theme's name.
    fn draw_taskbar(&self, canvas: &mut Canvas, th: &Theme)
        requires
            self.wf(),
            old(canvas).wf(),
        ensures
            same_surface(*old(canvas), *final(canvas)),
            final(canvas).pixels@ == taskbar_drawn(*self, old(canvas).pixels@, old(canvas).width as int,
                old(canvas).height as int, *th),
    {
        let y = self.height - TASKBAR_H;
        canvas.fill_rect(0, y, self.width, TASKBAR_H, th.taskbar_bg);
        canvas.fill_rect(0, y, self.width, 1, th.accent);
        canvas.draw_text(8, y + 6, "Buitenzorg", th.accent, 130);
        let ghost c0 = *old(canvas);
        let ghost (cw, ch) = (c0.width as int, c0.height as int);
        let ghost named = canvas.pixels@;
        let mut wx: i32 = 118;
        let mut ws: u8 = 0;
        while ws < WORKSPACES
            invariant
                same_surface(c0, *canvas),
                self.wf(),
                y == self.height - TASKBAR_H,
                ws <= WORKSPACES,
                wx == 118 + 22 * ws,
                cw == c0.width && ch == c0.height,
                canvas.pixels@ == workspace_buttons(named, cw, ch, y as int, self.workspace, *th, ws as int),
            decreases WORKSPACES - ws,
        {
            let sel = ws == self.workspace;
            let bg = if sel { th.win_title_active } else { th.win_title_inactive };
            canvas.fill_rect(wx, y + 5, 18, TASKBAR_H - 10, bg);
            let mut label = String::new();
            crate::text::string_push(&mut label, (49u8 + ws) as char);
            assert(label@ == seq![((49 + ws as int) as u8) as char]);
            let tc = if sel { th.title_text } else { th.text };
            canvas.draw_text(wx + 5, y + 6, label.as_str(), tc, wx + 18);
            wx = wx + 22;
            ws = ws + 1;
        }
        let ghost buttons = canvas.pixels@;
        let mut top_id: Option<u32> = None;
        let mut i: usize = 0;
        while i < self.windows.len()
            invariant
                self.wf(),
                i <= self.windows@.len(),
                top_id == top_on(self.windows@, self.workspace, i as int),
            decreases self.windows@.len() - i,
        {
            if self.windows[i].workspace == self.workspace && self.windows[i].state != WinState::Minimized {
                top_id = Some(self.windows[i].id);
            }
            i = i + 1;
        }
        let mut bx: i32 = wx + 12;
        let mut i: usize = 0;
        while i < self.windows.len()
            invariant
                same_surface(c0, *canvas),
                self.wf(),
                y == self.height - TASKBAR_H,
                i <= self.windows@.len(),
                TASKBAR_FIRST <= bx <= TASKBAR_FIRST + 128 * i,
                cw == c0.width && ch == c0.height,
                top_id == top_on(self.windows@, self.workspace, self.windows@.len() as int),
                (canvas.pixels@, bx as int) == task_buttons(buttons, cw, ch, y as int, self.windows@, self.workspace,
                    top_id, *th, i as int),
            decreases self.windows@.len() - i,
        {
            let win = &self.windows[i];
            if win.workspace == self.workspace {
                let is_top = match top_id { Some(t) => t == win.id, None => false };
                let bg = if win.state == WinState::Minimized {
                    th.taskbar_bg
                } else if is_top {
                    th.win_title_active
                } else {
                    th.win_title_inactive
                };
                canvas.fill_rect(bx, y + 4, 120, TASKBAR_H - 8, bg);
                let tc = if is_top { th.title_text } else { th.text };
                canvas.draw_text(bx + 6, y + 6, win.title.as_str(), tc, bx + 118);
                bx = bx + 128;
            }
            i = i + 1;
        }
        canvas.draw_text(self.width - 150, y + 6, th.name, th.accent, self.width - 6);
    }

    /// The cursor: a 12-row triangle, each pixel scaled to a block.
    fn draw_cursor(&self, canvas: &mut Canvas, th: &Theme)
        requires
            self.wf(),
            old(canvas).wf(),
        ensures
            same_surface(*old(canvas), *final(canvas)),
            final(canvas).pixels@ == cursor_drawn(old(canvas).pixels@, old(canvas).width as int, old(canvas).height as int,
                self.cursor.0 as int, self.cursor.1 as int, self.cursor_scale as int, th.win_border, th.cursor, 12),
    {
        let (cx, cy) = self.cursor;
        let s = self.cursor_scale;
        let ghost c0 = *old(canvas);
        let mut dy: i32 = 0;
        while dy < 12
            invariant
                same_surface(c0, *canvas),
                self.wf(),
                (cx, cy) == self.cursor,
                s == self.cursor_scale,
                0 <= dy <= 12,
                canvas.pixels@ == cursor_drawn(c0.pixels@, c0.width as int, c0.height as int, cx as int, cy as int, s as int,
                    th.win_border, th.cursor, dy as nat),
            decreases 12 - dy,
        {
            let ghost q = canvas.pixels@;
            let len = 12 - dy;
            let mut dx: i32 = 0;
            while dx < len
                invariant
                    same_surface(c0, *canvas),
                    self.wf(),
                    (cx, cy) == self.cursor,
                    s == self.cursor_scale,
                    0 <= dy < 12,
                    len == 12 - dy,
                    0 <= dx <= len,
                    q == cursor_drawn(c0.pixels@, c0.width as int, c0.height as int, cx as int, cy as int, s as int,
                        th.win_border, th.cursor, dy as nat),
                    canvas.pixels@ == cursor_row(q, c0.width as int, c0.height as int, cx as int, cy as int, s as int,
                        th.win_border, th.cursor, dy as int, dx as nat),
                decreases len - dx,
            {
                let edge = dx == 0 || dx == len - 1 || dy == 0;
                let color = if edge { th.win_border } else { th.cursor };
                assert(0 <= dx * s <= 36 && 0 <= dy * s <= 36) by (nonlinear_arith)
                    requires 0 <= dx < 12, 0 <= dy < 12, 1 <= s <= 3;
                canvas.fill_rect(cx + dx * s, cy + dy * s, s, s, color);
                dx = dx + 1;
            }
            dy = dy + 1;
        }
    }

    /// Draw one visible window: shadow, rounded body and border, title bar,
    /// buttons, then its canvas or its text lines, and the resize grip.
    fn draw_window(&self, canvas: &mut Canvas, win: &Window, th: &Theme, active: bool, radius: i32)
        requires
            self.wf(),
            win.wf(),
            old(canvas).wf(),
            0 <= radius <= 8,
            1 <= th.border_thickness <= 4,
        ensures
            same_surface(*old(canvas), *final(canvas)),
            final(canvas).pixels@ == window_drawn(*self, *win, *th, active, radius as int, old(canvas).pixels@,
                old(canvas).width as int, old(canvas).height as int),
    {
        let ghost c0 = *old(canvas);
        let ghost (cw, ch) = (c0.width as int, c0.height as int);
        let bt = th.border_thickness;
        match th.shadow_style {
            ShadowStyle::NoShadow => {},
            ShadowStyle::Soft => {
                fill_rounded(canvas, win.x + 4, win.y + 5, win.w, win.h, radius, th.shadow);
            },
            ShadowStyle::HardOffset => {
                canvas.fill_rect(win.x + 8, win.y + 8, win.w, win.h, th.shadow);
            },
        }
        fill_rounded(canvas, win.x, win.y, win.w, win.h, radius, th.win_body);
        outline_rounded(canvas, win.x, win.y, win.w, win.h, radius, bt, th.win_border);
        let title_bg = if active { th.win_title_active } else { th.win_title_inactive };
        let title_color = if active { th.title_text } else { th.text };
        match th.title_style {
            TitleStyle::Tab => {
                let half = win.w / 2;
                let tab_w = if half < 180 { if half < 80 { 80 } else { half } } else { if 180 < 80 { 80 } else { 180 } };
                canvas.fill_rect(win.x + bt, win.y + bt, tab_w, TITLE_H, title_bg);
                canvas.draw_text(win.x + 8, win.y + 5, win.title.as_str(), title_color, win.x + tab_w);
            },
            TitleStyle::Beveled => {
                canvas.fill_rect(win.x + bt, win.y + bt, win.w - 2 * bt, TITLE_H, title_bg);
                let light = shift(title_bg, 60);
                canvas.fill_rect(win.x + bt, win.y + bt, win.w - 2 * bt, 2, light);
                canvas.fill_rect(win.x + bt, win.y + bt, 2, TITLE_H, light);
                canvas.fill_rect(win.x + bt, win.y + bt + TITLE_H - 2, win.w - 2 * bt, 2, th.win_border);
                canvas.draw_text(win.x + 8, win.y + 5, win.title.as_str(), title_color, win.x + win.w - 8);
            },
            TitleStyle::Flat => {
                canvas.fill_rect(win.x + bt, win.y + bt, win.w - 2 * bt, TITLE_H, title_bg);
                canvas.draw_text(win.x + 8, win.y + 5, win.title.as_str(), title_color, win.x + win.w - 3 * BTN_W - 4);
            },
        }
        self.draw_title_buttons(canvas, win, th, title_color);
        let ghost buttons = canvas.pixels@;
        assert(buttons == title_buttons_drawn(*self, *win, *th, title_color,
            title_bar_drawn(rounded_outlined(rounded_filled(
                match th.shadow_style {
                    ShadowStyle::NoShadow => c0.pixels@,
                    ShadowStyle::Soft => rounded_filled(c0.pixels@, cw, ch, win.x + 4, win.y + 5, win.w as int, win.h as int, radius as int, th.shadow),
                    ShadowStyle::HardOffset => crate::gfx::rect_filled(c0.pixels@, cw, ch, win.x + 8, win.y + 8, win.w as int, win.h as int, th.shadow),
                }, cw, ch, win.x as int, win.y as int, win.w as int, win.h as int, radius as int, th.win_body),
                cw, ch, win.x as int, win.y as int, win.w as int, win.h as int, radius as int, th.border_thickness as int, th.win_border),
                cw, ch, *win, *th, title_bg, title_color), cw, ch, 3));
        match &win.canvas {
            Some(app) => {
                let ox = win.x + BORDER;
                let oy = win.y + BORDER + TITLE_H;
                let vw0 = if app.w < win.w - 2 * BORDER { app.w } else { win.w - 2 * BORDER };
                let vis_w = if vw0 < 0 { 0 } else { vw0 };
                let vh0 = if app.h < win.h - TITLE_H - 2 * BORDER { app.h } else { win.h - TITLE_H - 2 * BORDER };
                let vis_h = if vh0 < 0 { 0 } else { vh0 };
                let mut row: i32 = 0;
                while row < vis_h
                    invariant
                        same_surface(c0, *canvas),
                        win.wf(),
                        win.canvas == Some(*app),
                        0 <= vis_w <= app.w,
                        0 <= vis_h <= app.h,
                        vis_w <= win.w - 2 * BORDER + 0 || vis_w == 0,
                        ox == win.x + BORDER,
                        oy == win.y + BORDER + TITLE_H,
                        vis_h <= win.h - TITLE_H - 2 * BORDER || vis_h == 0,
                        0 <= row <= vis_h,
                        cw == c0.width && ch == c0.height,
                        vis_w == (if vw0 < 0 { 0 } else { vw0 }),
                        vw0 as int == (if app.w < win.w - 2 * BORDER { app.w as int } else { win.w - 2 * BORDER }),
                        canvas.pixels@ == app_rows(buttons, cw, ch, ox as int, oy as int, *app, vis_w as int, row as int),
                    decreases vis_h - row,
                {
                    let ghost rowstart = canvas.pixels@;
                    let mut col: i32 = 0;
                    while col < vis_w
                        invariant
                            same_surface(c0, *canvas),
                            win.wf(),
                            win.canvas == Some(*app),
                            0 <= vis_w <= app.w,
                            0 <= vis_h <= app.h,
                            vis_w <= win.w - 2 * BORDER || vis_w == 0,
                            vis_h <= win.h - TITLE_H - 2 * BORDER || vis_h == 0,
                            ox == win.x + BORDER,
                            oy == win.y + BORDER + TITLE_H,
                            0 <= row < vis_h,
                            0 <= col <= vis_w,
                            cw == c0.width && ch == c0.height,
                            canvas.pixels@ == app_row(rowstart, cw, ch, ox as int, oy as int, *app, row as int, col as int),
                        decreases vis_w - col,
                    {
                        let px = ox + col;
                        let py = oy + row;
                        assert((row as int) * (app.w as int) + col < (app.w as int) * (app.h as int)) by (nonlinear_arith)
                            requires 0 <= row < app.h, 0 <= col < app.w;
                        let ghost before = canvas.pixels@;
                        if px >= 0 && py >= 0 {
                            let c = app.pixels[(row * app.w + col) as usize];
                            canvas.put(px as usize, py as usize, c);
                        }
                        assert(canvas.pixels@ == crate::gfx::line_put(before, cw, ch, px as int, py as int,
                            app.pixels@[row * app.w + col]));
                        col = col + 1;
                    }
                    row = row + 1;
                }
            },
            None => {
                let mut ty = win.y + TITLE_H + 8;
                let body_bottom = win.y + win.h - 6;
                let gh = crate::gfx::glyph_height() as i32;
                let mut k: usize = 0;
                while k < win.lines.len() && ty <= body_bottom
                    invariant
                        same_surface(c0, *canvas),
                        win.wf(),
                        gh == 16,
                        body_bottom == win.y + win.h - 6,
                        ty <= win.y + TITLE_H + 8 || ty <= body_bottom + 19,
                        ty >= win.y + TITLE_H + 8,
                        k <= win.lines@.len(),
                        ty == win.y + TITLE_H + 8 + 19 * k,
                        k == 0 || win.y + TITLE_H + 8 + 19 * (k - 1) <= body_bottom,
                        cw == c0.width && ch == c0.height,
                        canvas.pixels@ == lines_drawn(buttons, cw, ch, *win, th.text, k as int),
                    decreases win.lines@.len() - k,
                {
                    canvas.draw_text(win.x + 8, ty, win.lines[k].as_str(), th.text, win.x + win.w - 6);
                    ty = ty + gh + 3;
                    k = k + 1;
                }
                proof {
                    let y0 = win.y + TITLE_H + 8;
                    let bb = win.y + win.h - 6;
                    if k < win.lines@.len() {
                        assert(y0 + 19 * k > bb);
                        if k > 0 {
                            assert((bb - y0) / 19 == k - 1) by (nonlinear_arith)
                                requires 19 * (k - 1) <= bb - y0, bb - y0 < 19 * k;
                        }
                    } else if k > 0 {
                        assert((bb - y0) / 19 >= k - 1) by (nonlinear_arith)
                            requires 19 * (k - 1) <= bb - y0;
                    }
                    assert(k == lines_shown(*win));
                }
            },
        }
        let ghost content = canvas.pixels@;
        let mut i: i32 = 0;
        while i < 3
            invariant
                same_surface(c0, *canvas),
                win.wf(),
                0 <= i <= 3,
                cw == c0.width && ch == c0.height,
                canvas.pixels@ == grip_drawn(content, cw, ch, *win, th.win_title_active, i as int),
            decreases 3 - i,
        {
            let gx = win.x + win.w - 4 - i * 4;
            let gy = win.y + win.h - 4;
            canvas.fill_rect(gx, gy - i * 4, 3, 3, th.win_title_active);
            i = i + 1;
        }
    }

    /// Render the desktop: wallpaper, the current workspace's visible
    /// windows back to front (the top one active), taskbar, ripple, cursor.
    fn compose(&self, canvas: &mut Canvas, th: &Theme, wallpaper: &Wallpaper)
        requires
            self.wf(),
            old(canvas).wf(),
            old(canvas).width <= SCREEN_MAX,
            old(canvas).height <= SCREEN_MAX,
            wallpaper.wf(),
            1 <= th.border_thickness <= 4,
        ensures
            same_surface(*old(canvas), *final(canvas)),
            final(canvas).pixels@ == composed(*self, *th, *wallpaper, old(canvas).pixels@, old(canvas).width as int,
                old(canvas).height as int),
    {
        crate::wallpaper::paint(wallpaper, canvas, th, self.workspace);
        let ghost c0 = *old(canvas);
        let ghost (cw, ch) = (c0.width as int, c0.height as int);
        let ghost buttons = canvas.pixels@;
        let mut top_id: Option<u32> = None;
        let mut i: usize = 0;
        while i < self.windows.len()
            invariant
                self.wf(),
                i <= self.windows@.len(),
                top_id == top_on(self.windows@, self.workspace, i as int),
            decreases self.windows@.len() - i,
        {
            if self.windows[i].workspace == self.workspace && self.windows[i].state != WinState::Minimized {
                top_id = Some(self.windows[i].id);
            }
            i = i + 1;
        }
        let radius: i32 = if self.rounded && th.title_style != TitleStyle::Beveled { 8 } else { 0 };
        let mut i: usize = 0;
        while i < self.windows.len()
            invariant
                same_surface(c0, *canvas),
                self.wf(),
                1 <= th.border_thickness <= 4,
                0 <= radius <= 8,
                i <= self.windows@.len(),
                cw == c0.width && ch == c0.height,
                radius as int == (if self.rounded && th.title_style != TitleStyle::Beveled { 8int } else { 0int }),
                top_id == top_on(self.windows@, self.workspace, self.windows@.len() as int),
                canvas.pixels@ == windows_drawn(*self, *th, radius as int, top_id, buttons, cw, ch, i as int),
            decreases self.windows@.len() - i,
        {
            let win = &self.windows[i];
            assert(self.windows@[i as int].wf());
            if win.workspace == self.workspace && win.state != WinState::Minimized {
                let active = match top_id { Some(t) => t == win.id, None => false };
                self.draw_window(canvas, win, th, active, radius);
            }
            i = i + 1;
        }
        self.draw_taskbar(canvas, th);
        self.draw_ripple(canvas, th);
        self.draw_cursor(canvas, th);
    }
}

/// Compose the desktop into the `width` by `height` buffer `back`.
pub fn compose_into(wm: &Wm, theme: &ThemeState, wallpaper: &Wallpaper, back: &mut Vec<u32>, width: usize, height: usize)
    requires
        wm.wf(),
        wallpaper.wf(),
        width * height <= old(back)@.len(),
        width <= SCREEN_MAX as usize,
        height <= SCREEN_MAX as usize,
    ensures
        final(back)@.len() == old(back)@.len(),
        final(back)@ == composed(*wm, crate::theme::spec_theme(theme.index()), *wallpaper, old(back)@, width as int, height as int),
{
    let th = crate::theme::current(theme);
    proof {
        crate::theme::lemma_border_bounds(theme.index());
    }
    let mut pixels: Vec<u32> = Vec::new();
    std::mem::swap(&mut pixels, back);
    let mut canvas = Canvas::new(pixels, width, height);
    wm.compose(&mut canvas, &th, wallpaper);
    std::mem::swap(&mut canvas.pixels, back);
}

/// Render one frame into `back`, first resizing it to `width * height`
/// pixels when it has another size.
pub fn render_frame(wm: &Wm, theme: &ThemeState, wallpaper: &Wallpaper, back: &mut Vec<u32>, width: usize, height: usize)
    requires
        wm.wf(),
        wallpaper.wf(),
        width <= SCREEN_MAX as usize,
        height <= SCREEN_MAX as usize,
    ensures
        final(back)@.len() == width * height,
        final(back)@ == composed(*wm, crate::theme::spec_theme(theme.index()), *wallpaper,
            if old(back)@.len() == width * height { old(back)@ } else { Seq::new((width * height) as nat, |i: int| 0u32) },
            width as int, height as int),
{
    assert(width * height <= 0x4000 * 0x4000) by (nonlinear_arith)
        requires width <= 0x4000, height <= 0x4000;
    if back.len() != width * height {
        *back = vec![0u32; width * height];
        assert(back@ =~= Seq::new((width * height) as nat, |i: int| 0u32));
    }
    compose_into(wm, theme, wallpaper, back, width, height);
}

/// The draw command stays within `i32` arithmetic for its operation.
pub open spec fn cmd_in_range(cmd: DrawCmd) -> bool {
    let x = cmd.x as int;
    let y = cmd.y as int;
    let w = cmd.w as int;
    let h = cmd.h as int;
    if cmd.op == draw_op::FILL_RECT {
        i32::MIN <= x + w <= i32::MAX && i32::MIN <= y + h <= i32::MAX
    } else if cmd.op == draw_op::DRAW_TEXT {
        x <= i32::MAX - 7 && y <= i32::MAX - 16
    } else if cmd.op == draw_op::LINE {
        -0x1FFF_FFFF <= w <= 0x1FFF_FFFF && -0x1FFF_FFFF <= h <= 0x1FFF_FFFF
            && i32::MIN <= x + w <= i32::MAX && i32::MIN <= y + h <= i32::MAX
    } else if cmd.op == draw_op::ELLIPSE || cmd.op == draw_op::FILL_ELLIPSE {
        x + w < i32::MAX && y + h < i32::MAX && (w / 2) * (w / 2) * ((h / 2) * (h / 2)) <= i64::MAX
    } else if cmd.op == draw_op::RECT {
        i32::MIN <= x + w <= i32::MAX && i32::MIN <= y + h <= i32::MAX
            && i32::MIN <= x + w - 1 && i32::MIN <= y + h - 1 && x + 1 <= i32::MAX && y + 1 <= i32::MAX
    } else {
        true
    }
}

/// The canvas pixels `p` (`cw` by `ch`) after the draw command, for the
/// operations other than a line.
pub open spec fn cmd_drawn(p: Seq<u32>, cw: int, ch: int, cmd: DrawCmd, text: Seq<char>) -> Seq<u32> {
    let x = cmd.x as int;
    let y = cmd.y as int;
    let w = cmd.w as int;
    let h = cmd.h as int;
    let c = cmd.color;
    if cmd.op == draw_op::FILL_RECT {
        crate::gfx::rect_filled(p, cw, ch, x, y, w, h, c)
    } else if cmd.op == draw_op::CLEAR {
        crate::gfx::rect_filled(p, cw, ch, 0, 0, cw, ch, c)
    } else if cmd.op == draw_op::DRAW_TEXT {
        crate::gfx::text_drawn(p, cw, ch, x, y, text, c, cw, text.len()).0
    } else if cmd.op == draw_op::ELLIPSE || cmd.op == draw_op::FILL_ELLIPSE {
        if w <= 1 || h <= 1 { p } else { crate::gfx::ellipse_rows(p, cw, ch, x, y, w, h, c, cmd.op == draw_op::FILL_ELLIPSE, (2 * (h / 2) + 1) as nat) }
    } else {
        let p1 = crate::gfx::rect_filled(p, cw, ch, x, y, w, 1, c);
        let p2 = crate::gfx::rect_filled(p1, cw, ch, x, y + h - 1, w, 1, c);
        let p3 = crate::gfx::rect_filled(p2, cw, ch, x, y, 1, h, c);
        crate::gfx::rect_filled(p3, cw, ch, x + w - 1, y, 1, h, c)
    }
}

/// Apply a draw command to the canvas of the first window with id `id`:
/// fill/outline a rectangle, clear, draw text (clipped at the canvas's right
/// edge), a line, or an ellipse.
pub fn draw_on_window(wm: &mut Wm, id: u32, cmd: &DrawCmd, text: Option<&str>) -> (r: Result<(), &'static str>)
    requires
        old(wm).wf(),
        cmd_in_range(*cmd),
    ensures
        final(wm).wf(),
        no_id(old(wm).windows@, id) ==> r is Err && *final(wm) == *old(wm),
        forall|k: int| #[trigger] is_first_id(old(wm).windows@, id, k) ==> {
            let win = old(wm).windows@[k];
            let nwin = final(wm).windows@[k];
            &&& final(wm).windows@.len() == old(wm).windows@.len()
            &&& forall|j: int| 0 <= j < old(wm).windows@.len() && j != k ==> final(wm).windows@[j] == old(wm).windows@[j]
            &&& win.canvas is None ==> r is Err && final(wm).windows@ == old(wm).windows@
            &&& cmd.op == draw_op::DRAW_TEXT && text is None ==> r is Err
            &&& !(cmd.op <= draw_op::RECT) ==> r is Err
            &&& win.canvas is Some && (cmd.op <= draw_op::RECT) && !(cmd.op == draw_op::DRAW_TEXT && text is None) ==> r is Ok
            &&& r is Ok ==> win.canvas is Some && nwin.canvas is Some && ({
                let a = win.canvas->0;
                let b = nwin.canvas->0;
                &&& nwin == (Window { canvas: nwin.canvas, ..win })
                &&& b.w == a.w && b.h == a.h && b.pixels@.len() == a.pixels@.len()
                &&& cmd.op != draw_op::LINE ==> b.pixels@ == cmd_drawn(a.pixels@, a.w as int, a.h as int, *cmd,
                    if text is Some { text->0@ } else { Seq::empty() })
            })
            &&& r is Err ==> final(wm).windows@ == old(wm).windows@
        },
        *final(wm) == (Wm { windows: final(wm).windows, ..*old(wm) }),
{
    let k = match find_window(wm, id) {
        Some(k) => k,
        None => {
            return Err("no such window");
        },
    };
    proof { lemma_first_id_unique(wm.windows@, id, k as int); }
    let ghost before = wm.windows@;
    assert(before[k as int].wf());
    if wm.windows[k].canvas.is_none() {
        return Err("window has no canvas");
    }
    if cmd.op == draw_op::DRAW_TEXT && text.is_none() {
        return Err("draw_text without text");
    }
    if cmd.op > draw_op::RECT {
        return Err("unknown draw op");
    }
    let app = match wm.windows[k].canvas.take() {
        Some(a) => a,
        None => {
            return Err("window has no canvas");
        },
    };
    let aw = app.w;
    let ah = app.h;
    let ghost a0 = app;
    let mut c = Canvas::new(app.pixels, aw as usize, ah as usize);
    if cmd.op == draw_op::FILL_RECT {
        c.fill_rect(cmd.x, cmd.y, cmd.w, cmd.h, cmd.color);
    } else if cmd.op == draw_op::CLEAR {
        c.fill_rect(0, 0, aw, ah, cmd.color);
    } else if cmd.op == draw_op::DRAW_TEXT {
        match text {
            Some(t) => {
                c.draw_text(cmd.x, cmd.y, t, cmd.color, aw);
            },
            None => {},
        }
    } else if cmd.op == draw_op::LINE {
        c.draw_line(cmd.x, cmd.y, cmd.x + cmd.w, cmd.y + cmd.h, cmd.color);
    } else if cmd.op == draw_op::ELLIPSE {
        c.ellipse(cmd.x, cmd.y, cmd.w, cmd.h, cmd.color, false);
    } else if cmd.op == draw_op::FILL_ELLIPSE {
        c.ellipse(cmd.x, cmd.y, cmd.w, cmd.h, cmd.color, true);
    } else {
        c.rect_outline(cmd.x, cmd.y, cmd.w, cmd.h, 1, cmd.color);
    }
    wm.windows[k].canvas = Some(AppCanvas { w: aw, h: ah, pixels: c.pixels });
    proof {
        assert forall|i: int| 0 <= i < wm.windows@.len() implies (#[trigger] wm.windows@[i]).wf() by {
            assert(before[i].wf());
        }
        assert forall|j: int| 0 <= j < before.len() && j != k implies wm.windows@[j] == before[j] by {}
    }
    Ok(())
}

} // verus!
