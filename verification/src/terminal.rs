//! Terminal emulator bound to a window. Holds a scrollback of text lines and
//! the current input line; keystrokes do line editing and Enter runs the
//! built-in shell, appending its output. The rendered window body is the
//! tail of the scrollback plus the prompt and input line.

use vstd::prelude::*;
use vstd::string::*;
use crate::driver::BlockDevice;
use crate::shell::{cwd_of, line_outcome, line_ran, prompt, run, Effect, Request, System};
use crate::text::{owned, push_str, string_push, texts};

verus! {

/// Lines kept in the scrollback.
pub const MAX_SCROLLBACK: usize = 200;

/// The first scrollback line.
pub const BANNER: &'static str = "Buitenzorg Terminal \u{2014} ketik 'help'";

/// A terminal attached to a window.
pub struct Terminal {
    pub window: u32,
    pub visible_rows: usize,
    pub scrollback: Vec<String>,
    pub input: String,
}

impl Terminal {
    /// The scrollback holds at most [`MAX_SCROLLBACK`] lines.
    pub open spec fn wf(&self) -> bool {
        self.scrollback@.len() <= MAX_SCROLLBACK
    }
}

/// A Unicode control character (general category Cc), as `char::is_control`.
pub open spec fn control(c: char) -> bool {
    (c as u32) <= 0x1F || (0x7F <= (c as u32) && (c as u32) <= 0x9F)
}

/// The input line after one non-Enter keystroke: backspace and delete drop
/// the last character, other control characters are ignored, anything else
/// is appended.
pub open spec fn edited(input: Seq<char>, c: char) -> Seq<char> {
    if c == '\u{8}' || c == '\u{7f}' {
        if input.len() > 0 { input.drop_last() } else { input }
    } else if !control(c) {
        input.push(c)
    } else {
        input
    }
}

/// The last `n` lines of `s` (all of them when there are fewer).
pub open spec fn last_lines(s: Seq<Seq<char>>, n: nat) -> Seq<Seq<char>> {
    if s.len() > n { s.skip(s.len() - n) } else { s }
}

/// A new terminal on `window` showing `visible_rows` body lines, with the
/// banner as its only scrollback line.
pub fn attach(window: u32, visible_rows: usize) -> (t: Terminal)
    ensures
        t.wf(),
        t.window == window,
        t.visible_rows == visible_rows,
        texts(t.scrollback@) == seq![BANNER@],
        t.input@.len() == 0,
{
    let mut sb: Vec<String> = Vec::new();
    sb.push(owned(BANNER));
    assert(texts(sb@) =~= seq![BANNER@]);
    Terminal { window, visible_rows, scrollback: sb, input: String::new() }
}

/// Whether `c` is a control character.
pub fn is_control(c: char) -> (r: bool)
    ensures
        r == control(c),
{
    let v = c as u32;
    v <= 0x1F || (0x7F <= v && v <= 0x9F)
}

/// Apply one non-Enter keystroke to the input line.
pub fn edit(input: &mut String, c: char)
    requires
        c != '\n' && c != '\r',
    ensures
        final(input)@ == edited(old(input)@, c),
{
    if c == '\u{8}' || c == '\u{7f}' {
        let n = input.as_str().unicode_len();
        if n > 0 {
            let s = input.as_str().substring_char(0, n - 1).to_string();
            assert(s@ =~= old(input)@.drop_last());
            *input = s;
        }
    } else if !is_control(c) {
        string_push(input, c);
    }
}

/// Drop the oldest lines beyond [`MAX_SCROLLBACK`].
pub fn trim(sb: &mut Vec<String>)
    ensures
        texts(final(sb)@) == last_lines(texts(old(sb)@), MAX_SCROLLBACK as nat),
        final(sb)@.len() <= MAX_SCROLLBACK,
{
    if sb.len() > MAX_SCROLLBACK {
        let excess = sb.len() - MAX_SCROLLBACK;
        let tail = sb.split_off(excess);
        *sb = tail;
        assert(texts(sb@) =~= texts(old(sb)@).skip(excess as int));
    } else {
        assert(texts(sb@) =~= last_lines(texts(old(sb)@), MAX_SCROLLBACK as nat));
    }
}

/// Append a command's output (or clear, for [`Effect::Clear`]) and trim.
pub fn append_output(term: &mut Terminal, output: Vec<String>, effect: Effect)
    ensures
        final(term).wf(),
        final(term).window == old(term).window,
        final(term).visible_rows == old(term).visible_rows,
        final(term).input == old(term).input,
        effect == Effect::Clear ==> final(term).scrollback@.len() == 0,
        effect != Effect::Clear ==> texts(final(term).scrollback@)
            == last_lines(texts(old(term).scrollback@) + texts(output@), MAX_SCROLLBACK as nat),
{
    if effect == Effect::Clear {
        term.scrollback.clear();
    } else {
        let mut out = output;
        let ghost o = out@;
        term.scrollback.append(&mut out);
        assert(texts(term.scrollback@) =~= texts(old(term).scrollback@) + texts(o));
        trim(&mut term.scrollback);
    }
}

/// The window body: the last `max(rows, 1) - 1` scrollback lines, then the
/// prompt and the input line.
pub open spec fn body(sb: Seq<Seq<char>>, rows: nat, prompt_line: Seq<char>) -> Seq<Seq<char>> {
    let r = if rows < 1 { 1nat } else { rows };
    last_lines(sb, (r - 1) as nat).push(prompt_line)
}

/// The lines the window shows.
pub fn visible_lines<D>(term: &Terminal, sys: &System<D>) -> (r: Vec<String>)
    ensures
        texts(r@) == body(texts(term.scrollback@), term.visible_rows as nat,
            "buitenzorg:"@ + cwd_of(sys.shell.cwd@) + "$ "@ + term.input@),
{
    let rows = if term.visible_rows < 1 { 1 } else { term.visible_rows };
    let body_rows = rows - 1;
    let n = term.scrollback.len();
    let start = if n > body_rows { n - body_rows } else { 0 };
    let mut lines: Vec<String> = Vec::new();
    let mut i = start;
    while i < n
        invariant
            start <= i <= n,
            n == term.scrollback@.len(),
            texts(lines@) == texts(term.scrollback@).subrange(start as int, i as int),
        decreases n - i,
    {
        let ghost before = texts(lines@);
        lines.push(owned(term.scrollback[i].as_str()));
        assert(texts(lines@) =~= before.push(term.scrollback@[i as int]@));
        assert(texts(lines@) =~= texts(term.scrollback@).subrange(start as int, i + 1));
        i = i + 1;
    }
    let mut input_line = prompt(sys);
    push_str(&mut input_line, term.input.as_str());
    let ghost shown = texts(lines@);
    lines.push(input_line);
    proof {
        let sb = texts(term.scrollback@);
        assert(sb.subrange(start as int, n as int) =~= last_lines(sb, body_rows as nat));
        assert(texts(lines@) =~= shown.push(input_line@));
    }
    lines
}

/// Show the terminal in its window.
pub fn render<D: BlockDevice>(term: &Terminal, sys: &mut System<D>)
    requires
        old(sys).inv(),
    ensures
        final(sys).inv(),
        final(sys).shell.cwd == old(sys).shell.cwd,
        final(sys).vfs == old(sys).vfs,
        final(sys).theme == old(sys).theme,
        final(sys).wallpaper == old(sys).wallpaper,
        final(sys).pkgs == old(sys).pkgs,
        final(sys).models == old(sys).models,
        final(sys).power == old(sys).power,
        final(sys).saver == old(sys).saver,
        crate::wm::no_id(old(sys).wm.windows@, term.window) ==> final(sys).wm == old(sys).wm,
        forall|k: int| #[trigger] crate::wm::is_first_id(old(sys).wm.windows@, term.window, k) ==> {
            &&& texts(final(sys).wm.windows@[k].lines@) == body(texts(term.scrollback@), term.visible_rows as nat,
                "buitenzorg:"@ + cwd_of(old(sys).shell.cwd@) + "$ "@ + term.input@)
            &&& final(sys).wm.windows@ == old(sys).wm.windows@.update(k,
                crate::wm::Window { lines: final(sys).wm.windows@[k].lines, ..old(sys).wm.windows@[k] })
            &&& final(sys).wm == (crate::wm::Wm { windows: final(sys).wm.windows, ..old(sys).wm })
        },
{
    let lines = visible_lines(term, sys);
    crate::wm::set_window_lines(&mut sys.wm, term.window, lines);
}

/// `b` is `a` after a redraw: only the window manager's contents differ.
pub open spec fn redrawn<D>(a: System<D>, b: System<D>) -> bool {
    &&& b.shell.cwd == a.shell.cwd && b.vfs == a.vfs && b.theme == a.theme && b.wallpaper == a.wallpaper
    &&& b.pkgs == a.pkgs && b.models == a.models && b.power == a.power && b.saver == a.saver
}

/// Feed one decoded character. Enter runs the input line through the shell
/// (echoing it after the prompt) and returns the command's effect and
/// request; other keys edit the input line.
pub fn feed_char<D: BlockDevice>(term: &mut Terminal, sys: &mut System<D>, c: char) -> (r: (Effect, Request))
    requires
        old(term).wf(),
        old(sys).inv(),
    ensures
        final(term).wf(),
        final(sys).inv(),
        final(term).window == old(term).window,
        final(term).visible_rows == old(term).visible_rows,
        (c == '\n' || c == '\r') ==> final(term).input@.len() == 0
            && (r.0 == Effect::Clear ==> final(term).scrollback@.len() == 0)
            && (exists|mid: System<D>, out: Seq<Seq<char>>| #[trigger] line_ran(*old(sys), mid, old(term).input@, out, r.0, r.1)
                && redrawn(mid, *final(sys))
                && (r.0 != Effect::Clear ==> texts(final(term).scrollback@) == last_lines(
                texts(old(term).scrollback@).push("buitenzorg:"@ + cwd_of(old(sys).shell.cwd@) + "$ "@ + old(term).input@)
                    + out, MAX_SCROLLBACK as nat))),
        (c == '\n' || c == '\r') && line_outcome(*old(sys), old(term).input@) is Some ==> ({
            let (o, e) = line_outcome(*old(sys), old(term).input@)->0;
            &&& r.0 == e
            &&& e == Effect::Clear ==> final(term).scrollback@.len() == 0
            &&& e != Effect::Clear ==> texts(final(term).scrollback@) == last_lines(
                texts(old(term).scrollback@).push("buitenzorg:"@ + cwd_of(old(sys).shell.cwd@) + "$ "@ + old(term).input@)
                    + o, MAX_SCROLLBACK as nat)
        }),
        !(c == '\n' || c == '\r') ==> final(term).input@ == edited(old(term).input@, c)
            && final(term).scrollback == old(term).scrollback && r.0 == Effect::Nothing && r.1 is Nothing
            && final(sys).shell.cwd == old(sys).shell.cwd && final(sys).vfs == old(sys).vfs,
{
    let ghost mut mid = *sys;
    let result = if c == '\n' || c == '\r' {
        let line = owned(term.input.as_str());
        term.input = String::new();
        let mut echo = prompt(sys);
        push_str(&mut echo, line.as_str());
        let ghost before = texts(term.scrollback@);
        term.scrollback.push(echo);
        let ghost pushed = texts(term.scrollback@);
        assert(pushed =~= before.push(echo@));
        let (output, eff, req) = run(sys, line.as_str());
        let ghost out = texts(output@);
        assert(line_ran(*old(sys), *sys, old(term).input@, out, eff, req));
        append_output(term, output, eff);
        proof {
            if eff != Effect::Clear {
                assert(texts(term.scrollback@) == last_lines(pushed + out, MAX_SCROLLBACK as nat));
                assert(pushed == texts(old(term).scrollback@).push(
                    "buitenzorg:"@ + cwd_of(old(sys).shell.cwd@) + "$ "@ + old(term).input@));
            }
            assert(line_ran(*old(sys), *sys, old(term).input@, out, eff, req)
                && (eff != Effect::Clear ==> texts(term.scrollback@) == last_lines(
                texts(old(term).scrollback@).push("buitenzorg:"@ + cwd_of(old(sys).shell.cwd@) + "$ "@ + old(term).input@)
                    + out, MAX_SCROLLBACK as nat)));
        }
        proof { mid = *sys; }
        (eff, req)
    } else {
        edit(&mut term.input, c);
        (Effect::Nothing, Request::Nothing)
    };
    render(term, sys);
    assert(redrawn(mid, *sys));
    result
}

/// Whether a terminal is attached (keystrokes go to it).
pub fn is_active(t: &Option<Terminal>) -> (b: bool)
    ensures
        b == t is Some,
{
    t.is_some()
}

/// A line typed then erased leaves the input as it was.
pub proof fn lemma_type_then_erase(input: Seq<char>, c: char)
    requires
        !control(c),
    ensures
        edited(edited(input, c), '\u{8}') == input,
{
    assert(input.push(c).drop_last() =~= input);
}

} // verus!
