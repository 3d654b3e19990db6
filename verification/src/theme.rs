//! Theme engine: design tokens + style parameters, with a dark/light system
//! theme plus 8 built-in styles, switchable live at runtime.

use vstd::prelude::*;
use crate::gfx::Color;

verus! {

/// Title-bar rendering style.
#[derive(Clone, Copy, PartialEq, Eq, Structural)]
pub enum TitleStyle {
    /// Flat colored bar.
    Flat,
    /// 3D beveled bar (Classic Windows).
    Beveled,
    /// Short tab in the top-left (BeOS).
    Tab,
}

/// Drop-shadow style.
#[derive(Clone, Copy, PartialEq, Eq, Structural)]
pub enum ShadowStyle {
    /// No shadow.
    NoShadow,
    /// Soft shadow offset a few px.
    Soft,
    /// Hard solid offset block (Neo Brutalism).
    HardOffset,
}

/// Design tokens + style parameters consumed by the renderer.
#[derive(Clone, Copy)]
pub struct Theme {
    pub name: &'static str,
    pub dark: bool,
    pub desktop_top: Color,
    pub desktop_bottom: Color,
    /// false = flat desktop fill (`desktop_top`).
    pub gradient: bool,
    pub win_body: Color,
    pub win_title_active: Color,
    pub win_title_inactive: Color,
    pub win_border: Color,
    pub border_thickness: i32,
    pub title_style: TitleStyle,
    pub shadow_style: ShadowStyle,
    pub text: Color,
    pub title_text: Color,
    pub taskbar_bg: Color,
    pub accent: Color,
    pub cursor: Color,
    pub shadow: Color,
}

/// Number of built-in themes.
pub const THEME_COUNT: usize = 10;

/// Theme names in cycle order: the dark/light system themes, then the 8 styles.
pub const THEME_NAMES: [&'static str; 10] = [
    "dark", "light", "neo-brutalism", "clean", "material", "bento", "classic-linux", "classic-windows", "sun", "beos",
];

/// Whether each theme is a dark one.
pub const THEME_DARK: [bool; 10] = [true, false, false, false, false, true, false, false, false, false];

/// Whether each theme paints a gradient desktop.
pub const THEME_GRADIENT: [bool; 10] = [true, true, false, true, true, true, false, false, false, false];

/// Border thickness of each theme.
pub const THEME_BORDER: [i32; 10] = [2, 1, 4, 1, 1, 2, 2, 2, 3, 1];

/// Title style of each theme: 0 = flat, 1 = beveled, 2 = tab.
pub const THEME_TITLE: [u8; 10] = [0, 0, 0, 0, 0, 0, 1, 1, 1, 2];

/// Shadow style of each theme: 0 = none, 1 = soft, 2 = hard offset.
pub const THEME_SHADOW: [u8; 10] = [1, 1, 2, 0, 1, 1, 0, 0, 0, 1];

/// Twelve colors per theme, in the order desktop_top, desktop_bottom,
/// win_body, win_title_active, win_title_inactive, win_border, text,
/// title_text, taskbar_bg, accent, cursor, shadow.
pub const THEME_COLORS: [u32; 120] = [
    0x10_1A12, 0x1E_2E1C, 0x14_1C16, 0x4F_A33F, 0x2C_3A2C, 0x0A_0F0A, 0xC8_E9B0, 0x0B_120B, 0x0A_140C, 0x6F_C14E, 0xF0_FFE0, 0x05_0805,
    0xE8_F0DE, 0xCB_DDC0, 0xF6_FAF0, 0x4F_A33F, 0xB8_CBAE, 0x8A_9E82, 0x1C_2A18, 0xF6_FAF0, 0xD6_E4CC, 0x2F_7A24, 0x14_2010, 0xA8_B89E,
    0xF2_E92C, 0xF2_E92C, 0xFF_FFFF, 0xFF_4D4D, 0xD0_D0D0, 0x00_0000, 0x00_0000, 0x00_0000, 0x00_0000, 0x2E_5BFF, 0x00_0000, 0x00_0000,
    0xFB_FBFA, 0xF0_F0EE, 0xFF_FFFF, 0xFF_FFFF, 0xFA_FAFA, 0xE2_E2E0, 0x33_3333, 0x22_2222, 0xFF_FFFF, 0x4A_90E2, 0x33_3333, 0xE8_E8E6,
    0x3F_51B5, 0x1A_237E, 0xFF_FFFF, 0x67_3AB7, 0xB3_9DDB, 0xCF_CFCF, 0x21_2121, 0xFF_FFFF, 0x31_2A5E, 0xFF_4081, 0x21_2121, 0x18_1830,
    0x1B_1B1F, 0x24_242A, 0x2A_2A30, 0xF5_A623, 0x3A_3A42, 0x3A_3A42, 0xE4_E4EA, 0x1B_1B1F, 0x16_161A, 0x4E_D1A1, 0xFF_FFFF, 0x0E_0E12,
    0x4E_6E8E, 0x4E_6E8E, 0xC0_C0B8, 0x6A_6A8A, 0x90_9098, 0x60_6060, 0x10_1010, 0xF0_F0F0, 0xA8_A8A0, 0x40_6080, 0x00_0000, 0x50_5050,
    0x00_8080, 0x00_8080, 0xC0_C0C0, 0x00_0080, 0x80_8080, 0x80_8080, 0x00_0000, 0xFF_FFFF, 0xC0_C0C0, 0x00_0080, 0x00_0000, 0x40_4040,
    0x63_5A7A, 0x63_5A7A, 0xB8_B0C8, 0x4A_3F6A, 0x8A_82A0, 0x38_3050, 0x18_1424, 0xF0_ECF8, 0x4A_4260, 0xC8_9B3C, 0x10_0C18, 0x30_2844,
    0x9C_B0C8, 0x9C_B0C8, 0xDD_DDDD, 0xFF_D51E, 0xCF_CFCF, 0x60_6060, 0x10_1010, 0x20_1800, 0xC8_C8C8, 0xFF_D51E, 0x00_0000, 0x70_8090,
];

/// The title style that code `c` of [`THEME_TITLE`] stands for.
pub open spec fn title_style_of(c: u8) -> TitleStyle {
    if c == 0 { TitleStyle::Flat } else if c == 1 { TitleStyle::Beveled } else { TitleStyle::Tab }
}

/// The shadow style that code `c` of [`THEME_SHADOW`] stands for.
pub open spec fn shadow_style_of(c: u8) -> ShadowStyle {
    if c == 0 { ShadowStyle::NoShadow } else if c == 1 { ShadowStyle::Soft } else { ShadowStyle::HardOffset }
}

/// The built-in theme number `i` (`0 <= i < 10`), read from the tables.
pub open spec fn spec_theme(i: int) -> Theme {
    let c = 12 * i;
    Theme {
        name: THEME_NAMES[i],
        dark: THEME_DARK[i],
        desktop_top: THEME_COLORS[c],
        desktop_bottom: THEME_COLORS[c + 1],
        gradient: THEME_GRADIENT[i],
        win_body: THEME_COLORS[c + 2],
        win_title_active: THEME_COLORS[c + 3],
        win_title_inactive: THEME_COLORS[c + 4],
        win_border: THEME_COLORS[c + 5],
        border_thickness: THEME_BORDER[i],
        title_style: title_style_of(THEME_TITLE[i]),
        shadow_style: shadow_style_of(THEME_SHADOW[i]),
        text: THEME_COLORS[c + 6],
        title_text: THEME_COLORS[c + 7],
        taskbar_bg: THEME_COLORS[c + 8],
        accent: THEME_COLORS[c + 9],
        cursor: THEME_COLORS[c + 10],
        shadow: THEME_COLORS[c + 11],
    }
}

/// Built-in theme number `i`.
pub fn theme_at(i: usize) -> (t: Theme)
    requires
        i < THEME_COUNT,
    ensures
        t == spec_theme(i as int),
{
    let c = 12 * i;
    let title_style = if THEME_TITLE[i] == 0 {
        TitleStyle::Flat
    } else if THEME_TITLE[i] == 1 {
        TitleStyle::Beveled
    } else {
        TitleStyle::Tab
    };
    let shadow_style = if THEME_SHADOW[i] == 0 {
        ShadowStyle::NoShadow
    } else if THEME_SHADOW[i] == 1 {
        ShadowStyle::Soft
    } else {
        ShadowStyle::HardOffset
    };
    Theme {
        name: THEME_NAMES[i],
        dark: THEME_DARK[i],
        desktop_top: THEME_COLORS[c],
        desktop_bottom: THEME_COLORS[c + 1],
        gradient: THEME_GRADIENT[i],
        win_body: THEME_COLORS[c + 2],
        win_title_active: THEME_COLORS[c + 3],
        win_title_inactive: THEME_COLORS[c + 4],
        win_border: THEME_COLORS[c + 5],
        border_thickness: THEME_BORDER[i],
        title_style,
        shadow_style,
        text: THEME_COLORS[c + 6],
        title_text: THEME_COLORS[c + 7],
        taskbar_bg: THEME_COLORS[c + 8],
        accent: THEME_COLORS[c + 9],
        cursor: THEME_COLORS[c + 10],
        shadow: THEME_COLORS[c + 11],
    }
}

/// The active theme selection (index into the built-in table).
pub struct ThemeState {
    current: usize,
}

impl ThemeState {
    #[verifier::type_invariant]
    spec fn inv(self) -> bool {
        self.current < THEME_COUNT
    }

    /// The index of the active theme.
    pub closed spec fn index(self) -> int {
        self.current as int
    }

    /// The system dark theme, selected at boot.
    pub fn new() -> (s: ThemeState)
        ensures
            s.index() == 0,
    {
        ThemeState { current: 0 }
    }
}

/// The active theme.
pub fn current(st: &ThemeState) -> (t: Theme)
    ensures
        0 <= st.index() < THEME_COUNT,
        t == spec_theme(st.index()),
{
    proof { use_type_invariant(st); }
    theme_at(st.current)
}

/// Name of the active theme.
pub fn name(st: &ThemeState) -> (n: &'static str)
    ensures
        n == THEME_NAMES[st.index()],
{
    proof { use_type_invariant(st); }
    THEME_NAMES[st.current]
}

/// Whether the active theme is dark.
pub fn is_dark(st: &ThemeState) -> (d: bool)
    ensures
        d == THEME_DARK[st.index()],
{
    proof { use_type_invariant(st); }
    THEME_DARK[st.current]
}

/// Whether `name` names built-in theme `i`.
pub open spec fn names_theme(name: Seq<char>, i: int) -> bool {
    THEME_NAMES[i]@ == name
}

/// Set the theme by name; returns true if found. The first theme with that
/// name becomes active; an unknown name leaves the selection unchanged.
pub fn set_by_name(st: &mut ThemeState, name: &str) -> (found: bool)
    ensures
        found == (exists|i: int| 0 <= i < THEME_COUNT && #[trigger] names_theme(name@, i)),
        found ==> names_theme(name@, final(st).index())
            && forall|j: int| 0 <= j < final(st).index() ==> !#[trigger] names_theme(name@, j),
        !found ==> final(st).index() == old(st).index(),
        0 <= final(st).index() < THEME_COUNT,
{
    proof { use_type_invariant(&*st); }
    let mut i: usize = 0;
    while i < THEME_COUNT
        invariant
            i <= THEME_COUNT,
            forall|j: int| 0 <= j < i ==> !#[trigger] names_theme(name@, j),
            *st == *old(st),
            0 <= st.index() < THEME_COUNT,
        decreases THEME_COUNT - i,
    {
        if crate::bytes::str_eq(THEME_NAMES[i], name) {
            assert(names_theme(name@, i as int));
            *st = ThemeState { current: i };
            return true;
        }
        i = i + 1;
    }
    false
}

/// Advance to the next theme (live cycle, wrapping); returns its name.
pub fn cycle(st: &mut ThemeState) -> (n: &'static str)
    ensures
        0 <= old(st).index() < THEME_COUNT,
        final(st).index() == (old(st).index() + 1) % (THEME_COUNT as int),
        n == THEME_NAMES[final(st).index()],
{
    proof { use_type_invariant(&*st); }
    let next = (st.current + 1) % THEME_COUNT;
    *st = ThemeState { current: next };
    THEME_NAMES[next]
}

/// Toggle only between the dark and light system themes: from dark go to
/// light, from anything else go to dark.
pub fn toggle(st: &mut ThemeState) -> (n: &'static str)
    ensures
        final(st).index() == (if old(st).index() == 0 { 1int } else { 0int }),
        n == THEME_NAMES[final(st).index()],
{
    let next: usize = if st.current == 0 { 1 } else { 0 };
    *st = ThemeState { current: next };
    THEME_NAMES[next]
}

/// All built-in themes in cycle order, for `theme list`.
pub fn names() -> (ts: [Theme; 10])
    ensures
        forall|i: int| 0 <= i < THEME_COUNT ==> ts@[i] == spec_theme(i),
{
    [theme_at(0), theme_at(1), theme_at(2), theme_at(3), theme_at(4), theme_at(5), theme_at(6), theme_at(7),
        theme_at(8), theme_at(9)]
}

/// Every theme's border is 1 to 4 pixels thick.
pub proof fn lemma_border_bounds(i: int)
    requires
        0 <= i < THEME_COUNT,
    ensures
        1 <= spec_theme(i).border_thickness <= 4,
{
}

/// Law: cycling through all ten themes comes back to the starting one.
pub proof fn lemma_cycle_returns(i: int)
    requires
        0 <= i < THEME_COUNT,
    ensures
        cycle_n(i, THEME_COUNT as nat) == i,
{
    lemma_cycle_n(i, THEME_COUNT as nat);
}

/// The index reached from `i` after `n` cycle steps.
pub open spec fn cycle_n(i: int, n: nat) -> int
    decreases n,
{
    if n == 0 { i } else { (cycle_n(i, (n - 1) as nat) + 1) % (THEME_COUNT as int) }
}

proof fn lemma_cycle_n(i: int, n: nat)
    requires
        0 <= i < THEME_COUNT,
    ensures
        cycle_n(i, n) == (i + n) % (THEME_COUNT as int),
    decreases n,
{
    if n > 0 {
        lemma_cycle_n(i, (n - 1) as nat);
        vstd::arithmetic::div_mod::lemma_add_mod_noop(i + n - 1, 1, THEME_COUNT as int);
        vstd::arithmetic::div_mod::lemma_mod_twice(i + n - 1, THEME_COUNT as int);
        vstd::arithmetic::div_mod::lemma_small_mod(1, THEME_COUNT as nat);
    }
}

/// Law: toggling twice from either system theme comes back to it.
pub proof fn lemma_toggle_twice(i: int)
    requires
        i == 0 || i == 1,
    ensures
        (if (if i == 0 { 1int } else { 0int }) == 0 { 1int } else { 0int }) == i,
{
}

} // verus!
