//! The desktop loop's decisions, one timer tick at a time: where input goes,
//! when the screensaver starts and stops, and whether to draw a frame. The
//! loop itself (halting, polling the devices, drawing) is the machine's part.

use vstd::prelude::*;

verus! {

/// What the loop remembers between ticks.
#[derive(Clone, Copy, PartialEq, Eq, Debug, Structural)]
pub struct DesktopState {
    /// Mouse packet count seen last.
    pub last_packets: u64,
    /// Left button state seen last.
    pub last_left: bool,
    /// Tick of the last input.
    pub last_input: u64,
    /// The screensaver is showing.
    pub saver_active: bool,
}

/// What happened since the last tick.
#[derive(Clone, Copy, PartialEq, Eq, Debug, Structural)]
pub struct Tick {
    pub now: u64,
    /// At least one key was read.
    pub keys: bool,
    /// The mouse's packet count and left button.
    pub packets: u64,
    pub left: bool,
}

/// What to draw this tick.
#[derive(Clone, Copy, PartialEq, Eq, Debug, Structural)]
pub enum Frame {
    /// Draw the next screensaver frame and present it.
    Saver,
    /// Compose the desktop.
    Desktop,
    /// Draw nothing (only wait for the idle timeout to pass).
    Nothing,
}

/// The loop's orders for one tick.
#[derive(Clone, Copy, PartialEq, Eq, Debug, Structural)]
pub struct Orders {
    /// Hand the keys read to the terminal.
    pub feed_keys: bool,
    /// Hand the mouse to the window manager.
    pub feed_mouse: bool,
    /// Whether to ask the window manager to advance its animation and
    /// compose when it animates (only when nothing else decides).
    pub tick_animation: bool,
    pub frame: Frame,
}

/// The state before the first tick.
pub fn start(now: u64) -> (s: DesktopState)
    ensures
        s == (DesktopState { last_packets: u64::MAX, last_left: false, last_input: now, saver_active: false }),
{
    DesktopState { last_packets: u64::MAX, last_left: false, last_input: now, saver_active: false }
}

/// The mouse moved or its button changed.
pub open spec fn mouse_changed(s: DesktopState, t: Tick) -> bool {
    t.packets != s.last_packets || t.left != s.last_left
}

/// Any input this tick.
pub open spec fn had_input(s: DesktopState, t: Tick) -> bool {
    t.keys || mouse_changed(s, t)
}

/// Idle long enough for the screensaver.
pub open spec fn idle_out(last_input: u64, now: u64, timeout: u64) -> bool {
    (if now >= last_input { now - last_input } else { 0 }) > timeout
}

/// One tick: input goes to the terminal and window manager unless the
/// screensaver shows (any input then dismisses it and is otherwise dropped);
/// the screensaver animates while active, starts when enabled and the idle
/// time exceeds the timeout, and otherwise the desktop is drawn on input
/// (or when an animation runs).
pub fn step(s: &mut DesktopState, t: Tick, saver_enabled: bool, timeout: u64) -> (o: Orders)
    ensures
        ({
            let s0 = *old(s);
            let input = had_input(s0, t);
            let last_input = if input { t.now } else { s0.last_input };
            let active = s0.saver_active && !input;
            &&& o.feed_keys == (t.keys && !s0.saver_active)
            &&& o.feed_mouse == (mouse_changed(s0, t) && !s0.saver_active)
            &&& final(s).last_packets == (if mouse_changed(s0, t) { t.packets } else { s0.last_packets })
            &&& final(s).last_left == (if mouse_changed(s0, t) { t.left } else { s0.last_left })
            &&& final(s).last_input == last_input
            &&& active ==> o.frame == Frame::Saver && final(s).saver_active && !o.tick_animation
            &&& !active && saver_enabled && idle_out(last_input, t.now, timeout) ==>
                final(s).saver_active && o.frame == Frame::Nothing && !o.tick_animation
            &&& !active && !(saver_enabled && idle_out(last_input, t.now, timeout)) ==> !final(s).saver_active
                && o.tick_animation && o.frame == (if input { Frame::Desktop } else { Frame::Nothing })
        }),
{
    let mouse = t.packets != s.last_packets || t.left != s.last_left;
    let feed_keys = t.keys && !s.saver_active;
    let feed_mouse = mouse && !s.saver_active;
    if mouse {
        s.last_packets = t.packets;
        s.last_left = t.left;
    }
    let input = t.keys || mouse;
    if input {
        s.last_input = t.now;
        s.saver_active = false;
    }
    let idle = t.now.saturating_sub(s.last_input);
    if s.saver_active {
        Orders { feed_keys, feed_mouse, tick_animation: false, frame: Frame::Saver }
    } else if saver_enabled && idle > timeout {
        s.saver_active = true;
        Orders { feed_keys, feed_mouse, tick_animation: false, frame: Frame::Nothing }
    } else {
        Orders { feed_keys, feed_mouse, tick_animation: true, frame: if input { Frame::Desktop } else { Frame::Nothing } }
    }
}

} // verus!
