//! Built-in shell: popular cross-ecosystem commands (Unix and Windows
//! aliases) over the VFS, the theme, the window manager and the package,
//! model and power services. `run` takes the whole system state and one
//! input line and returns the output lines, an [`Effect`] for the desktop and
//! a [`Request`] for work that only the machine can do (power, launching an
//! app).
//!
//! Supported: help, ls/dir, cat/type, echo, pwd, cd, clear/cls, ver/uname,
//! about, mounts, theme, ws, run, bg, saver, cursor, anim, settings, ask,
//! shutdown/restart/sleep, bz.

use vstd::prelude::*;
use vstd::string::*;
use crate::driver::BlockDevice;
use crate::pkg::PkgState;
use crate::model::ModelRegistry;
use crate::power::Power;
use crate::screensaver;
use crate::text::{padded, push_padded, str_contains, occurs_at, push_hex, hex, owned, push_str, str_eq, string_push, texts, push_decimal, decimal, push_signed, signed_decimal, utf8_text, is_prefix};
use crate::vfs::{split_spec, unmounted, path_mount, path_file};
use crate::theme::ThemeState;
use crate::vfs::Vfs;
use crate::wallpaper::Wallpaper;
use crate::wm::Wm;

verus! {

/// Side effect a command asks the terminal or desktop to perform.
#[derive(Clone, Copy, PartialEq, Eq, Debug, Structural)]
pub enum Effect {
    Nothing,
    Clear,
    /// Theme, workspace or wallpaper changed: recompose the desktop.
    Redraw,
}

/// Work a command hands to the machine.
#[derive(Debug)]
pub enum Request {
    Nothing,
    /// Power off (does not return).
    Shutdown,
    /// Reboot (does not return).
    Restart,
    /// Blank the screen and halt until input; then print "bangun dari sleep".
    Sleep,
    /// Launch the named app; report with [`run_outcome`].
    Run(String),
}

/// The shell's own state: the current directory ("" until the first `cd`,
/// which means `/disk`).
pub struct ShellState {
    pub cwd: String,
}

/// Everything the shell reads and changes.
pub struct System<D> {
    pub shell: ShellState,
    pub vfs: Vfs<D>,
    pub theme: ThemeState,
    pub wm: Wm,
    pub wallpaper: Wallpaper,
    pub saver: screensaver::Config,
    pub pkgs: PkgState,
    pub models: ModelRegistry,
    pub power: Power,
}

impl<D: BlockDevice> System<D> {
    /// The parts' own invariants.
    pub open spec fn inv(&self) -> bool {
        &&& self.vfs.inv()
        &&& self.wm.wf()
        &&& self.wallpaper.wf()
    }
}

// ---------------------------------------------------------------- words

/// Unicode `White_Space`, as `str::split_whitespace` and `str::trim` use it.
pub open spec fn space(c: char) -> bool {
    c == '\t' || c == '\n' || c == '\x0B' || c == '\x0C' || c == '\r' || c == ' '
        || c == '\u{85}' || c == '\u{A0}' || c == '\u{1680}'
        || ('\u{2000}' <= c && c <= '\u{200A}')
        || c == '\u{2028}' || c == '\u{2029}' || c == '\u{202F}' || c == '\u{205F}' || c == '\u{3000}'
}

/// Whether `c` is Unicode whitespace.
pub fn is_space(c: char) -> (r: bool)
    ensures
        r == space(c),
{
    c == '\t' || c == '\n' || c == '\x0B' || c == '\x0C' || c == '\r' || c == ' '
        || c == '\u{85}' || c == '\u{A0}' || c == '\u{1680}'
        || ('\u{2000}' <= c && c <= '\u{200A}')
        || c == '\u{2028}' || c == '\u{2029}' || c == '\u{202F}' || c == '\u{205F}' || c == '\u{3000}'
}

/// Length of the run of non-space characters that starts `s`.
pub open spec fn word_len(s: Seq<char>) -> nat
    decreases s.len(),
{
    if s.len() == 0 || space(s[0]) { 0 } else { 1 + word_len(s.drop_first()) }
}

/// The whitespace-separated words of `s`, in order.
pub open spec fn words(s: Seq<char>) -> Seq<Seq<char>>
    decreases s.len(),
{
    if s.len() == 0 {
        Seq::empty()
    } else if space(s[0]) {
        words(s.drop_first())
    } else {
        let k = word_len(s);
        proof { lemma_word_len_bound(s); }
        seq![s.take(k as int)] + words(s.skip(k as int))
    }
}

/// A word is a prefix of non-space characters ended by a space or the end.
pub proof fn lemma_word_len_bound(s: Seq<char>)
    ensures
        word_len(s) <= s.len(),
        word_len(s) < s.len() ==> space(s[word_len(s) as int]),
        forall|q: int| 0 <= q < word_len(s) ==> !space(#[trigger] s[q]),
    decreases s.len(),
{
    if s.len() > 0 && !space(s[0]) {
        lemma_word_len_bound(s.drop_first());
        assert forall|q: int| 0 <= q < word_len(s) implies !space(#[trigger] s[q]) by {
            if q > 0 { assert(s[q] == s.drop_first()[q - 1]); }
        }
    }
}

/// A word of `s` ends at the first space (or the end).
proof fn lemma_word_len_at(s: Seq<char>, i: int, j: int)
    requires
        0 <= i <= j <= s.len(),
        forall|q: int| i <= q < j ==> !space(#[trigger] s[q]),
        j == s.len() || space(s[j]),
    ensures
        word_len(s.skip(i)) == j - i,
    decreases j - i,
{
    if i < j {
        assert(s.skip(i).drop_first() =~= s.skip(i + 1));
        lemma_word_len_at(s, i + 1, j);
    } else if j < s.len() {
        assert(s.skip(i)[0] == s[j]);
    }
}

/// Splits a line into its whitespace-separated words.
pub fn split_words(line: &str) -> (r: Vec<String>)
    ensures
        texts(r@) == words(line@),
{
    let n = line.unicode_len();
    let ghost s = line@;
    let mut out: Vec<String> = Vec::new();
    let mut i: usize = 0;
    assert(s.skip(0) =~= s);
    while i < n
        invariant
            n == s.len(),
            s == line@,
            i <= n,
            texts(out@) + words(s.skip(i as int)) == words(s),
        decreases n - i,
    {
        let c = line.get_char(i);
        if is_space(c) {
            assert(s.skip(i as int).drop_first() =~= s.skip(i + 1));
            i = i + 1;
        } else {
            let mut w = String::new();
            let mut j: usize = i;
            while j < n && !is_space(line.get_char(j))
                invariant
                    n == s.len(),
                    s == line@,
                    i <= j <= n,
                    w@ == s.subrange(i as int, j as int),
                    forall|q: int| i <= q < j ==> !space(#[trigger] s[q]),
                decreases n - j,
            {
                string_push(&mut w, line.get_char(j));
                assert(w@ =~= s.subrange(i as int, j + 1));
                j = j + 1;
            }
            proof {
                lemma_word_len_at(s, i as int, j as int);
                let t = s.skip(i as int);
                assert(t[0] == s[i as int]);
                assert(t.take(j - i) =~= s.subrange(i as int, j as int));
                assert(t.skip(j - i) =~= s.skip(j as int));
                assert(words(t) == seq![w@] + words(s.skip(j as int)));
            }
            let ghost before = texts(out@);
            out.push(w);
            proof {
                assert(texts(out@) =~= before.push(s.subrange(i as int, j as int)));
                assert(texts(out@) + words(s.skip(j as int)) =~= before + words(s.skip(i as int)));
            }
            i = j;
        }
    }
    assert(s.skip(n as int) =~= Seq::<char>::empty());
    assert(texts(out@) =~= texts(out@) + words(s.skip(n as int)));
    out
}

/// Words joined by single spaces.
pub open spec fn joined(ws: Seq<Seq<char>>) -> Seq<char>
    decreases ws.len(),
{
    if ws.len() == 0 {
        Seq::empty()
    } else if ws.len() == 1 {
        ws[0]
    } else {
        joined(ws.drop_last()) + seq![' '] + ws.last()
    }
}

/// `ws[from..]` joined by single spaces.
pub fn join_from(ws: &Vec<String>, from: usize) -> (r: String)
    requires
        from <= ws@.len(),
    ensures
        r@ == joined(texts(ws@).skip(from as int)),
{
    let mut out = String::new();
    if from >= ws.len() {
        assert(texts(ws@).skip(from as int) =~= Seq::<Seq<char>>::empty());
        proof { reveal_with_fuel(joined, 1); }
        return out;
    }
    let mut i: usize = from;
    while i < ws.len()
        invariant
            from < ws@.len(),
            from <= i <= ws@.len(),
            out@ == joined(texts(ws@).subrange(from as int, i as int)),
        decreases ws@.len() - i,
    {
        let ghost prev = texts(ws@).subrange(from as int, i as int);
        if i > from {
            string_push(&mut out, ' ');
        }
        push_str(&mut out, ws[i].as_str());
        proof {
            let next = texts(ws@).subrange(from as int, i + 1);
            assert(next.drop_last() =~= prev);
            assert(next.last() == ws@[i as int]@);
            if i == from {
                assert(prev.len() == 0);
                assert(out@ =~= next[0]);
            } else {
                assert(out@ =~= joined(prev) + seq![' '] + next.last());
            }
        }
        i = i + 1;
    }
    assert(texts(ws@).subrange(from as int, ws@.len() as int) =~= texts(ws@).skip(from as int));
    out
}

// ---------------------------------------------------------------- paths

/// The current directory: `/disk` until the first `cd`.
pub open spec fn cwd_of(c: Seq<char>) -> Seq<char> {
    if c.len() == 0 { "/disk"@ } else { c }
}

/// The current directory.
pub fn cwd<D>(sys: &System<D>) -> (r: String)
    ensures
        r@ == cwd_of(sys.shell.cwd@),
{
    if sys.shell.cwd.as_str().unicode_len() == 0 {
        owned("/disk")
    } else {
        owned(sys.shell.cwd.as_str())
    }
}

/// The prompt, `buitenzorg:<cwd>$ `.
pub fn prompt<D>(sys: &System<D>) -> (r: String)
    ensures
        r@ == "buitenzorg:"@ + cwd_of(sys.shell.cwd@) + "$ "@,
{
    let mut s = owned("buitenzorg:");
    let c = cwd(sys);
    push_str(&mut s, c.as_str());
    push_str(&mut s, "$ ");
    s
}

/// `s` without its trailing `/` characters.
pub open spec fn trim_slashes(s: Seq<char>) -> Seq<char>
    decreases s.len(),
{
    if s.len() > 0 && s.last() == '/' { trim_slashes(s.drop_last()) } else { s }
}

/// `arg` resolved against `base`: absolute paths stay, relative ones are
/// appended after one `/`, and no argument means `base` itself.
pub open spec fn resolved(base: Seq<char>, arg: Option<Seq<char>>) -> Seq<char> {
    match arg {
        None => base,
        Some(p) => if p.len() > 0 && p[0] == '/' { p } else { trim_slashes(base) + "/"@ + p },
    }
}

/// The characters of an optional argument.
pub open spec fn arg_text(arg: Option<&str>) -> Option<Seq<char>> {
    match arg {
        Some(p) => Some(p@),
        None => None,
    }
}

fn trim_slashes_len(s: &str) -> (n: usize)
    ensures
        n <= s@.len(),
        s@.take(n as int) == trim_slashes(s@),
{
    let mut n = s.unicode_len();
    assert(s@.take(n as int) =~= s@);
    while n > 0 && s.get_char(n - 1) == '/'
        invariant
            n <= s@.len(),
            trim_slashes(s@.take(n as int)) == trim_slashes(s@),
        decreases n,
    {
        assert(s@.take(n as int).drop_last() =~= s@.take(n - 1));
        n = n - 1;
    }
    n
}

/// Resolves an optional path argument against the current directory.
pub fn resolve<D>(sys: &System<D>, arg: Option<&str>) -> (r: String)
    ensures
        r@ == resolved(cwd_of(sys.shell.cwd@), arg_text(arg)),
{
    match arg {
        Some(p) => {
            if p.unicode_len() > 0 && p.get_char(0) == '/' {
                owned(p)
            } else {
                let base = cwd(sys);
                let n = trim_slashes_len(base.as_str());
                let mut s = base.as_str().substring_char(0, n).to_string();
                proof { reveal_strlit("/"); }
                string_push(&mut s, '/');
                push_str(&mut s, p);
                assert(s@ =~= trim_slashes(base@) + "/"@ + p@);
                s
            }
        },
        None => cwd(sys),
    }
}

// ---------------------------------------------------------------- fixed text

/// The version line.
pub open spec fn version_text() -> Seq<char> {
    "Buitenzorg OS v0.12 'Nalar' -- Gravicode Studios (Kang Fadhil)"@
}

/// The version line.
pub fn version() -> (r: String)
    ensures
        r@ == version_text(),
{
    owned("Buitenzorg OS v0.12 'Nalar' -- Gravicode Studios (Kang Fadhil)")
}

/// Owned copies of a list of literals.
fn lines_from(src: &[&str]) -> (r: Vec<String>)
    ensures
        r@.len() == src@.len(),
        forall|i: int| 0 <= i < src@.len() ==> (#[trigger] r@[i])@ == src@[i]@,
{
    let mut out: Vec<String> = Vec::new();
    let mut i: usize = 0;
    while i < src.len()
        invariant
            i <= src@.len(),
            out@.len() == i,
            forall|k: int| 0 <= k < i ==> (#[trigger] out@[k])@ == src@[k]@,
        decreases src@.len() - i,
    {
        out.push(owned(src[i]));
        i = i + 1;
    }
    out
}

/// The `about` text.
pub const ABOUT: [&'static str; 7] = [
    "Buitenzorg OS",
    "  Sistem operasi hibrida & AI-native (kernel Rust, userland C#).",
    "  \"zonder zorg\" - tanpa kekhawatiran. Kebun Raya Bogor edition.",
    "",
    "  Dibuat oleh : Gravicode Studios",
    "  Dipimpin oleh: Kang Fadhil",
    "  Versi       : v0.12 'Nalar'",
];

/// The `help` text.
pub const HELP: [&'static str; 21] = [
    "Perintah:",
    "  ls|dir [path]     daftar isi direktori (VFS)",
    "  cat|type <file>   tampilkan isi file",
    "  cd <path>         pindah direktori",
    "  pwd               direktori sekarang",
    "  echo <teks>       cetak teks",
    "  mounts            daftar mount VFS",
    "  theme [nama|cycle|list]     ganti tema (8 style + dark/light)",
    "  bg [nama|list|/path.bmp]    ganti wallpaper (bawaan / gambar user)",
    "  saver [nama|list|off]       screensaver (starfield, mystify, pipes, ...)",
    "  cursor [normal|besar]       ukuran kursor",
    "  anim [on|off]               micro-interaction on/off",
    "  settings                    tampilkan pengaturan (personalization)",
    "  ws [1-4]          pindah virtual desktop",
    "  run <app>         jalankan app (xox, paint, taskmgr)",
    "  ask <prompt>      AI: lengkapi teks (LLM lokal)",
    "  shutdown|restart|sleep      power management",
    "  bz <sub>          CLI (install/remove/list, model, power)",
    "  clear|cls         bersihkan layar",
    "  ver|uname         versi OS",
    "  about|credits     tentang & pembuat",
];

/// The `about` lines.
pub fn about() -> (r: Vec<String>)
    ensures
        r@.len() == 7,
        forall|i: int| 0 <= i < 7 ==> (#[trigger] r@[i])@ == ABOUT[i]@,
{
    lines_from(&ABOUT)
}

/// The `help` lines.
pub fn help() -> (r: Vec<String>)
    ensures
        r@.len() == 21,
        forall|i: int| 0 <= i < 21 ==> (#[trigger] r@[i])@ == HELP[i]@,
{
    lines_from(&HELP)
}


// ---------------------------------------------------------------- helpers

/// A single output line.
fn one(t: String) -> (r: Vec<String>)
    ensures
        r@.len() == 1,
        r@[0] == t,
{
    let mut v: Vec<String> = Vec::new();
    v.push(t);
    v
}

/// `a + b + c`.
fn cat3(a: &str, b: &str, c: &str) -> (r: String)
    ensures
        r@ == a@ + b@ + c@,
{
    let mut s = owned(a);
    push_str(&mut s, b);
    push_str(&mut s, c);
    s
}

/// `a + b`.
fn cat2(a: &str, b: &str) -> (r: String)
    ensures
        r@ == a@ + b@,
{
    let mut s = owned(a);
    push_str(&mut s, b);
    s
}

/// `a + b + c + d`.
fn cat4(a: &str, b: &str, c: &str, d: &str) -> (r: String)
    ensures
        r@ == a@ + b@ + c@ + d@,
{
    let mut s = cat3(a, b, c);
    push_str(&mut s, d);
    s
}

/// `a + b + c + d + e`.
fn cat5(a: &str, b: &str, c: &str, d: &str, e: &str) -> (r: String)
    ensures
        r@ == a@ + b@ + c@ + d@ + e@,
{
    let mut s = cat3(a, b, c);
    push_str(&mut s, d);
    push_str(&mut s, e);
    s
}

/// The mount table keeps its names, modes, volumes and disk contents.
pub open spec fn vfs_kept<D: BlockDevice>(a: &Vfs<D>, b: &Vfs<D>) -> bool {
    &&& b.mounts@.len() == a.mounts@.len()
    &&& forall|j: int| 0 <= j < a.mounts@.len() ==> {
        &&& (#[trigger] b.mounts@[j]).name == a.mounts@[j].name
        &&& b.mounts@[j].read_only == a.mounts@[j].read_only
        &&& b.mounts@[j].volume == a.mounts@[j].volume
        &&& b.mounts@[j].device.sectors() == a.mounts@[j].device.sectors()
    }
}

/// Everything but the VFS devices is unchanged.
pub open spec fn rest_kept<D>(a: &System<D>, b: &System<D>) -> bool {
    &&& b.shell.cwd == a.shell.cwd
    &&& b.theme == a.theme
    &&& b.wm == a.wm
    &&& b.wallpaper == a.wallpaper
    &&& b.saver == a.saver
    &&& b.pkgs == a.pkgs
    &&& b.models == a.models
    &&& b.power == a.power
}

/// The VFS reports an error for `p` whatever its devices hold: a relative
/// path, or one whose mount does not exist.
pub open spec fn path_fails<D>(v: &Vfs<D>, p: Seq<char>) -> bool {
    split_spec(p) is None || unmounted(v.mounts@, path_mount(p))
}

// ---------------------------------------------------------------- files

/// `ls`: the names in the directory, `<path>: (kosong)` when it is empty,
/// `ls: <path>: <error>` when the VFS refuses.
pub fn list_dir<D: BlockDevice>(sys: &mut System<D>, arg: Option<&str>) -> (r: Vec<String>)
    requires
        old(sys).inv(),
    ensures
        final(sys).inv(),
        rest_kept(old(sys), final(sys)),
        vfs_kept(&old(sys).vfs, &final(sys).vfs),
        r@.len() >= 1,
        ({
            let p = resolved(cwd_of(old(sys).shell.cwd@), arg_text(arg));
            path_fails(&old(sys).vfs, p) ==> r@.len() == 1 && is_prefix("ls: "@ + p + ": "@, r@[0]@)
        }),
{
    let path = resolve(sys, arg);
    match crate::vfs::list(&mut sys.vfs, path.as_str()) {
        Ok(names) => {
            if names.len() == 0 {
                proof { reveal_strlit(": (kosong)"); }
                one(cat2(path.as_str(), ": (kosong)"))
            } else {
                names
            }
        },
        Err(e) => {
            let r = one(cat5("ls: ", path.as_str(), ": ", e, ""));
            assert(r@[0]@.take(("ls: "@ + path@ + ": "@).len() as int) =~= "ls: "@ + path@ + ": "@);
            r
        },
    }
}

/// `cat`: the file's lines, or `cat: <path>: <why>`.
pub fn cat<D: BlockDevice>(sys: &mut System<D>, arg: Option<&str>) -> (r: Vec<String>)
    requires
        old(sys).inv(),
    ensures
        final(sys).inv(),
        rest_kept(old(sys), final(sys)),
        vfs_kept(&old(sys).vfs, &final(sys).vfs),
        arg is None ==> r@.len() == 1 && r@[0]@ == "cat: butuh nama file"@,
        ({
            let p = resolved(cwd_of(old(sys).shell.cwd@), arg_text(arg));
            arg is Some && (path_fails(&old(sys).vfs, p) || path_file(p).len() == 0)
                ==> r@.len() == 1 && is_prefix("cat: "@ + p + ": "@, r@[0]@)
        }),
{
    if arg.is_none() {
        return one(owned("cat: butuh nama file"));
    }
    let path = resolve(sys, arg);
    match crate::vfs::read(&mut sys.vfs, path.as_str()) {
        Ok(bytes) => match utf8_text(bytes.as_slice()) {
            Some(text) => crate::script::lines_of(&text),
            None => {
                let mut s = cat3("cat: ", path.as_str(), ": bukan teks UTF-8 (");
                push_decimal(&mut s, bytes.len() as u64);
                push_str(&mut s, " byte)");
                one(s)
            },
        },
        Err(e) => {
            let r = one(cat5("cat: ", path.as_str(), ": ", e, ""));
            assert(r@[0]@.take(("cat: "@ + path@ + ": "@).len() as int) =~= "cat: "@ + path@ + ": "@);
            r
        },
    }
}

/// `p` names mount `m` (given with its leading `/`) or lies below it.
pub open spec fn under_mount(p: Seq<char>, m: Seq<char>) -> bool {
    p == m || is_prefix(m + "/"@, p)
}

/// Some mount of `v` holds `p`.
pub open spec fn path_mounted<D>(v: &Vfs<D>, p: Seq<char>) -> bool {
    exists|i: int| 0 <= i < v.mounts@.len() && #[trigger] under_mount(p, seq!['/'] + v.mounts@[i].name@)
}

/// `cd`: moves to a path held by a mount; otherwise `cd: <path>: tidak ada`.
pub fn cd<D>(sys: &mut System<D>, arg: Option<&str>) -> (r: Vec<String>)
    ensures
        ({
            let p = resolved(cwd_of(old(sys).shell.cwd@), arg_text(arg));
            &&& path_mounted(&old(sys).vfs, p) ==> r@.len() == 0 && final(sys).shell.cwd@ == p
            &&& !path_mounted(&old(sys).vfs, p) ==> r@.len() == 1 && r@[0]@ == "cd: "@ + p + ": tidak ada"@
                && final(sys).shell.cwd == old(sys).shell.cwd
        }),
        final(sys).vfs == old(sys).vfs,
        final(sys).theme == old(sys).theme,
        final(sys).wm == old(sys).wm,
        final(sys).wallpaper == old(sys).wallpaper,
        final(sys).saver == old(sys).saver,
        final(sys).pkgs == old(sys).pkgs,
        final(sys).models == old(sys).models,
        final(sys).power == old(sys).power,
{
    let path = resolve(sys, arg);
    let ms = crate::vfs::mounts(&sys.vfs);
    let mut i: usize = 0;
    let mut found = false;
    while i < ms.len() && !found
        invariant
            i <= ms@.len(),
            ms@.len() == sys.vfs.mounts@.len(),
            forall|k: int| 0 <= k < ms@.len() ==> (#[trigger] ms@[k])@ == seq!['/'] + sys.vfs.mounts@[k].name@,
            found ==> path_mounted(&sys.vfs, path@),
            !found ==> forall|k: int| 0 <= k < i ==> !#[trigger] under_mount(path@, seq!['/'] + sys.vfs.mounts@[k].name@),
        decreases ms@.len() - i + (if found { 0int } else { 1int }),
    {
        let m = ms[i].as_str();
        let mut ms_slash = owned(m);
        string_push(&mut ms_slash, '/');
        proof { reveal_strlit("/"); }
        assert(ms_slash@ =~= m@ + "/"@);
        if str_eq(path.as_str(), m) || crate::text::starts_with(path.as_str(), ms_slash.as_str()) {
            assert(under_mount(path@, seq!['/'] + sys.vfs.mounts@[i as int].name@));
            found = true;
        } else {
            i = i + 1;
        }
    }
    if found {
        sys.shell.cwd = path;
        Vec::new()
    } else {
        one(cat3("cd: ", path.as_str(), ": tidak ada"))
    }
}

// ---------------------------------------------------------------- desktop

/// The `theme list` lines: a header, then each theme marked `* ` when it
/// has the active theme's name.
pub open spec fn theme_list_text(cur: int) -> Seq<Seq<char>> {
    seq!["tema tersedia:"@] + Seq::new(crate::theme::THEME_COUNT as nat, |i: int|
        (if crate::theme::THEME_NAMES[i]@ == crate::theme::THEME_NAMES[cur]@ { "* "@ } else { "  "@ })
            + crate::theme::THEME_NAMES[i]@)
}

/// `theme`: with no argument or `toggle`, switch dark/light; `cycle` or
/// `next`, the next theme; `list`, the themes; a name, that theme.
pub fn theme_cmd(th: &mut ThemeState, arg: Option<&str>) -> (r: (Vec<String>, Effect))
    ensures
        ({
            let toggle = arg is None || arg->0@ == "toggle"@;
            let cycle = arg is Some && (arg->0@ == "cycle"@ || arg->0@ == "next"@);
            let list = arg is Some && arg->0@ == "list"@;
            &&& toggle ==> final(th).index() == (if old(th).index() == 0 { 1int } else { 0int })
                && r.1 == Effect::Redraw && r.0@.len() == 1
                && r.0@[0]@ == "tema: "@ + crate::theme::THEME_NAMES[final(th).index()]@
            &&& cycle ==> final(th).index() == (old(th).index() + 1) % (crate::theme::THEME_COUNT as int)
                && r.1 == Effect::Redraw && r.0@.len() == 1
                && r.0@[0]@ == "tema: "@ + crate::theme::THEME_NAMES[final(th).index()]@
            &&& list ==> final(th).index() == old(th).index() && r.1 == Effect::Nothing && texts(r.0@) == theme_list_text(old(th).index())
            &&& !toggle && !cycle && !list ==> {
                let name = arg->0@;
                let found = exists|i: int| 0 <= i < crate::theme::THEME_COUNT && #[trigger] crate::theme::names_theme(name, i);
                &&& found ==> r.1 == Effect::Redraw && r.0@.len() == 1 && r.0@[0]@ == "tema: "@ + name
                    && crate::theme::names_theme(name, final(th).index())
                &&& !found ==> r.1 == Effect::Nothing && r.0@.len() == 1 && final(th).index() == old(th).index()
                    && r.0@[0]@ == "theme: '"@ + name + "' tidak dikenal (coba 'theme list')"@
            }
        }),
{
    proof {
        reveal_strlit("toggle");
        reveal_strlit("cycle");
        reveal_strlit("next");
        reveal_strlit("list");
        assert("toggle"@.len() != "list"@.len() && "toggle"@.len() != "cycle"@.len());
        assert("toggle"@.len() != "next"@.len() && "cycle"@.len() != "list"@.len());
        assert("next"@[0] != "list"@[0]);
    }
    let toggle = match arg { None => true, Some(a) => str_eq(a, "toggle") };
    if toggle {
        let n = crate::theme::toggle(th);
        return (one(cat2("tema: ", n)), Effect::Redraw);
    }
    let a = arg.unwrap();
    if str_eq(a, "cycle") || str_eq(a, "next") {
        let n = crate::theme::cycle(th);
        return (one(cat2("tema: ", n)), Effect::Redraw);
    }
    if str_eq(a, "list") {
        let _ = crate::theme::current(th);
        let cur = crate::theme::name(th);
        let mut out = one(owned("tema tersedia:"));
        let mut i: usize = 0;
        while i < crate::theme::THEME_COUNT
            invariant
                i <= crate::theme::THEME_COUNT,
                cur == crate::theme::THEME_NAMES[th.index()],
                0 <= th.index() < crate::theme::THEME_COUNT,
                texts(out@) == theme_list_text(th.index()).take(i + 1),
            decreases crate::theme::THEME_COUNT - i,
        {
            let t = crate::theme::THEME_NAMES[i];
            let mark = if str_eq(t, cur) { "* " } else { "  " };
            let ghost before = texts(out@);
            out.push(cat2(mark, t));
            proof {
                assert(texts(out@) =~= before.push(texts(out@).last()));
                assert(theme_list_text(th.index()).take(i + 2) =~= theme_list_text(th.index()).take(i + 1).push(theme_list_text(th.index())[i + 1]));
            }
            i = i + 1;
        }
        assert(theme_list_text(th.index()).take(11) =~= theme_list_text(th.index()));
        return (out, Effect::Nothing);
    }
    if crate::theme::set_by_name(th, a) {
        (one(cat2("tema: ", a)), Effect::Redraw)
    } else {
        (one(cat3("theme: '", a, "' tidak dikenal (coba 'theme list')")), Effect::Nothing)
    }
}

/// `ws`: the current workspace (1-based), or switch to workspace 1 to 4.
pub fn ws_cmd(wm: &mut Wm, arg: Option<&str>) -> (r: (Vec<String>, Effect))
    requires
        old(wm).wf(),
    ensures
        final(wm).wf(),
        r.0@.len() == 1,
        arg is None ==> *final(wm) == *old(wm) && r.1 == Effect::Nothing
            && r.0@[0]@ == "workspace: "@ + decimal(old(wm).workspace as nat + 1),
        arg is Some ==> match crate::text::u32_text(arg->0@) {
            Some(v) => if 1 <= v <= 4 {
                r.1 == Effect::Redraw && final(wm).workspace == v - 1
                    && r.0@[0]@ == "pindah ke desktop "@ + decimal(v as nat)
            } else {
                r.1 == Effect::Nothing && *final(wm) == *old(wm) && r.0@[0]@ == "ws: nomor 1..4"@
            },
            None => r.1 == Effect::Nothing && *final(wm) == *old(wm) && r.0@[0]@ == "ws: nomor 1..4"@,
        },
{
    match arg {
        None => {
            let mut s = owned("workspace: ");
            push_decimal(&mut s, crate::wm::current_workspace(wm) as u64 + 1);
            (one(s), Effect::Nothing)
        },
        Some(n) => match crate::text::parse_u32(n) {
            Some(v) => {
                if 1 <= v && v <= 4 {
                    crate::wm::switch_workspace(wm, (v - 1) as u8);
                    let mut s = owned("pindah ke desktop ");
                    push_decimal(&mut s, v as u64);
                    (one(s), Effect::Redraw)
                } else {
                    (one(owned("ws: nomor 1..4")), Effect::Nothing)
                }
            },
            None => (one(owned("ws: nomor 1..4")), Effect::Nothing),
        },
    }
}

/// `name` is a launchable app.
pub open spec fn launchable(name: Seq<char>) -> bool {
    exists|i: int| 0 <= i < 11 && crate::app::APP_NAMES[i]@ == name
}

/// `name` is in the package registry.
pub open spec fn registered(name: Seq<char>) -> bool {
    exists|i: int| 0 <= i < crate::pkg::REGISTRY_LEN && crate::pkg::PKG_NAMES[i]@ == name
}

/// `run`: asks the machine to launch an installed (or unregistered) app.
pub fn run_cmd(pkgs: &PkgState, arg: Option<&str>) -> (r: (Vec<String>, Effect, Request))
    ensures
        r.1 == Effect::Nothing,
        arg is None ==> r.2 is Nothing && r.0@.len() == 1 && r.0@[0]@ == "run: butuh nama app (mis. 'run xox')"@,
        arg is Some ==> {
            let n = arg->0@;
            &&& !launchable(n) ==> r.2 is Nothing && r.0@.len() == 1
                && r.0@[0]@ == "run: '"@ + n + "' tidak dikenal (lihat 'bz list')"@
            &&& launchable(n) && registered(n) && !crate::pkg::installed_names(pkgs).contains(n) ==> r.2 is Nothing
                && r.0@.len() == 1
                && r.0@[0]@ == "run: '"@ + n + "' belum terpasang \u{2014} jalankan 'bz install "@ + n + "'"@
            &&& launchable(n) && (!registered(n) || crate::pkg::installed_names(pkgs).contains(n)) ==>
                r.0@.len() == 0 && (r.2 matches Request::Run(a) && a@ == n)
        },
{
    let name = match arg {
        None => return (one(owned("run: butuh nama app (mis. 'run xox')")), Effect::Nothing, Request::Nothing),
        Some(n) => n,
    };
    if !crate::app::is_app(name) {
        return (one(cat3("run: '", name, "' tidak dikenal (lihat 'bz list')")), Effect::Nothing, Request::Nothing);
    }
    if crate::pkg::find(name).is_some() && !crate::pkg::is_installed(pkgs, name) {
        let s = cat5("run: '", name, "' belum terpasang \u{2014} jalankan 'bz install ", name, "'");
        return (one(s), Effect::Nothing, Request::Nothing);
    }
    (Vec::new(), Effect::Nothing, Request::Run(owned(name)))
}

/// The report of a launched app: `app '<name>' selesai (exit <code>)`, or
/// `run: <name>: <error>`.
pub fn run_outcome(name: &str, outcome: Result<u64, &str>) -> (r: (Vec<String>, Effect))
    ensures
        r.0@.len() == 1,
        match outcome {
            Ok(code) => r.1 == Effect::Redraw
                && r.0@[0]@ == "app '"@ + name@ + "' selesai (exit "@ + decimal(code as nat) + ")"@,
            Err(e) => r.1 == Effect::Nothing && r.0@[0]@ == "run: "@ + name@ + ": "@ + e@,
        },
{
    match outcome {
        Ok(code) => {
            let mut s = cat3("app '", name, "' selesai (exit ");
            push_decimal(&mut s, code);
            push_str(&mut s, ")");
            let r = (one(s), Effect::Redraw);
            assert(r.0@[0]@ == "app '"@ + name@ + "' selesai (exit "@ + decimal(code as nat) + ")"@);
            r
        },
        Err(e) => (one(cat4("run: ", name, ": ", e)), Effect::Nothing),
    }
}


// ---------------------------------------------------------------- lists

/// `header`, then each item indented by two spaces, then `tail`.
fn indented(header: &str, items: &[&str], tail: &str) -> (r: Vec<String>)
    ensures
        r@.len() == items@.len() + 2,
        r@[0]@ == header@,
        forall|i: int| 0 <= i < items@.len() ==> (#[trigger] r@[i + 1])@ == "  "@ + items@[i]@,
        r@[items@.len() as int + 1]@ == tail@,
{
    let mut out = one(owned(header));
    let mut i: usize = 0;
    while i < items.len()
        invariant
            i <= items@.len(),
            out@.len() == i + 1,
            out@[0]@ == header@,
            forall|k: int| 0 <= k < i ==> (#[trigger] out@[k + 1])@ == "  "@ + items@[k]@,
        decreases items@.len() - i,
    {
        out.push(cat2("  ", items[i]));
        i = i + 1;
    }
    out.push(owned(tail));
    out
}

/// Word `i` of a command line, if there is one.
pub open spec fn word_at(ws: Seq<String>, i: int) -> Option<Seq<char>> {
    if 0 <= i < ws.len() { Some(ws[i]@) } else { None }
}

/// Word `i` of `ws`, as an optional argument.
fn arg_at(ws: &Vec<String>, i: usize) -> (r: Option<&str>)
    ensures
        arg_text(r) == if i < ws@.len() { Some(ws@[i as int]@) } else { None },
{
    if i < ws.len() {
        Some(ws[i].as_str())
    } else {
        None
    }
}

/// The shown screensaver name.
pub open spec fn saver_shown(c: screensaver::Config) -> Seq<char> {
    if !c.enabled { "off"@ } else { screensaver::saver_name(c.saver) }
}

/// `bg`: the wallpaper, the built-ins, a BMP image from the VFS or a
/// built-in by name.
pub fn bg_cmd<D: BlockDevice>(sys: &mut System<D>, arg: Option<&str>) -> (r: (Vec<String>, Effect))
    requires
        old(sys).inv(),
    ensures
        final(sys).inv(),
        vfs_kept(&old(sys).vfs, &final(sys).vfs),
        final(sys).shell.cwd == old(sys).shell.cwd && final(sys).theme == old(sys).theme && final(sys).wm == old(sys).wm,
        final(sys).saver == old(sys).saver && final(sys).pkgs == old(sys).pkgs,
        final(sys).models == old(sys).models && final(sys).power == old(sys).power,
        arg is None ==> r.1 == Effect::Nothing && texts(r.0@) == seq!["wallpaper: "@ + old(sys).wallpaper.label@]
            && final(sys).wallpaper == old(sys).wallpaper,
        arg is Some && arg->0@ == "list"@ ==> r.1 == Effect::Nothing && final(sys).wallpaper == old(sys).wallpaper
            && r.0@.len() == 7 && r.0@[0]@ == "wallpaper bawaan:"@
            && (forall|i: int| 0 <= i < 5 ==> (#[trigger] r.0@[i + 1])@ == "  "@ + crate::wallpaper::BUILTINS[i]@)
            && r.0@[6]@ == "  /disk/<file>.bmp (gambar user 24-bit)"@,
        arg is Some && arg->0@ != "list"@ && arg->0@.len() > 0 && arg->0@[0] == '/' && path_fails(&old(sys).vfs, arg->0@)
            ==> r.1 == Effect::Nothing && r.0@.len() == 1 && is_prefix("bg: "@ + arg->0@ + ": "@, r.0@[0]@)
                && final(sys).wallpaper == old(sys).wallpaper,
        arg is Some && arg->0@ != "list"@ && !(arg->0@.len() > 0 && arg->0@[0] == '/') ==> {
            let n = arg->0@;
            &&& crate::wallpaper::builtin_kind(n) is Some ==> r.1 == Effect::Redraw && texts(r.0@) == seq!["wallpaper: "@ + n]
                && final(sys).wallpaper.label@ == n && final(sys).wallpaper.kind == crate::wallpaper::builtin_kind(n)->0
            &&& crate::wallpaper::builtin_kind(n) is None ==> r.1 == Effect::Nothing
                && final(sys).wallpaper == old(sys).wallpaper
                && texts(r.0@) == seq!["bg: '"@ + n + "' tidak dikenal (coba 'bg list')"@]
        },
{
    let a = match arg {
        None => {
            let l = crate::wallpaper::label(&sys.wallpaper);
            let r = one(cat2("wallpaper: ", l.as_str()));
            assert(texts(r@) =~= seq!["wallpaper: "@ + sys.wallpaper.label@]);
            return (r, Effect::Nothing);
        },
        Some(a) => a,
    };
    if str_eq(a, "list") {
        let r = indented("wallpaper bawaan:", &crate::wallpaper::BUILTINS, "  /disk/<file>.bmp (gambar user 24-bit)");
        return (r, Effect::Nothing);
    }
    if a.unicode_len() > 0 && a.get_char(0) == '/' {
        match crate::vfs::read(&mut sys.vfs, a) {
            Ok(bytes) => match crate::wallpaper::load_bmp(&mut sys.wallpaper, bytes.as_slice(), a) {
                Ok((w, h)) => {
                    let mut t = cat3("wallpaper: ", a, " (");
                    push_signed(&mut t, w as i64);
                    string_push(&mut t, 'x');
                    push_signed(&mut t, h as i64);
                    string_push(&mut t, ')');
                    (one(t), Effect::Redraw)
                },
                Err(e) => (one(cat4("bg: ", a, ": ", e)), Effect::Nothing),
            },
            Err(e) => {
                let r = one(cat4("bg: ", a, ": ", e));
                assert(r@[0]@.take(("bg: "@ + a@ + ": "@).len() as int) =~= "bg: "@ + a@ + ": "@);
                (r, Effect::Nothing)
            },
        }
    } else if crate::wallpaper::set_builtin(&mut sys.wallpaper, a) {
        let r = one(cat2("wallpaper: ", a));
        assert(texts(r@) =~= seq!["wallpaper: "@ + a@]);
        (r, Effect::Redraw)
    } else {
        let r = one(cat3("bg: '", a, "' tidak dikenal (coba 'bg list')"));
        assert(texts(r@) =~= seq!["bg: '"@ + a@ + "' tidak dikenal (coba 'bg list')"@]);
        (r, Effect::Nothing)
    }
}

/// `saver`: the screensaver, the list, or choose one (`off` disables).
pub fn saver_cmd(cfg: &mut screensaver::Config, arg: Option<&str>) -> (r: (Vec<String>, Effect))
    ensures
        r.1 == Effect::Nothing,
        arg is None ==> *final(cfg) == *old(cfg) && texts(r.0@) == seq!["screensaver: "@ + saver_shown(*old(cfg))],
        arg is Some && arg->0@ == "list"@ ==> *final(cfg) == *old(cfg) && r.0@.len() == 8
            && r.0@[0]@ == "screensaver:"@
            && (forall|i: int| 0 <= i < 6 ==> (#[trigger] r.0@[i + 1])@ == "  "@ + screensaver::NAMES[i]@)
            && r.0@[7]@ == "  off"@,
        arg is Some && arg->0@ != "list"@ ==> {
            let n = arg->0@;
            let known = screensaver::saver_named(n) is Some || n == "off"@ || n == "none"@;
            &&& known ==> texts(r.0@) == seq!["screensaver: "@ + saver_shown(*final(cfg))]
                && final(cfg).timeout == old(cfg).timeout
                && (screensaver::saver_named(n) is Some ==> final(cfg).enabled
                    && final(cfg).saver == screensaver::saver_named(n)->0)
                && (screensaver::saver_named(n) is None ==> !final(cfg).enabled)
            &&& !known ==> *final(cfg) == *old(cfg)
                && texts(r.0@) == seq!["saver: '"@ + n + "' tidak dikenal (coba 'saver list')"@]
        },
{
    let a = match arg {
        None => {
            let r = one(cat2("screensaver: ", cfg.name()));
            assert(texts(r@) =~= seq!["screensaver: "@ + saver_shown(*cfg)]);
            return (r, Effect::Nothing);
        },
        Some(a) => a,
    };
    if str_eq(a, "list") {
        return (indented("screensaver:", &screensaver::NAMES, "  off"), Effect::Nothing);
    }
    if cfg.set(a) {
        let r = one(cat2("screensaver: ", cfg.name()));
        assert(texts(r@) =~= seq!["screensaver: "@ + saver_shown(*cfg)]);
        (r, Effect::Nothing)
    } else {
        let r = one(cat3("saver: '", a, "' tidak dikenal (coba 'saver list')"));
        assert(texts(r@) =~= seq!["saver: '"@ + a@ + "' tidak dikenal (coba 'saver list')"@]);
        (r, Effect::Nothing)
    }
}

/// `cursor`: `besar`/`large`/`2` doubles the cursor, `normal`/`1` resets it.
pub fn cursor_cmd(wm: &mut Wm, arg: Option<&str>) -> (r: (Vec<String>, Effect))
    requires
        old(wm).wf(),
    ensures
        final(wm).wf(),
        r.0@.len() == 1,
        ({
            let big = arg is Some && (arg->0@ == "besar"@ || arg->0@ == "large"@ || arg->0@ == "2"@);
            let normal = arg is Some && (arg->0@ == "normal"@ || arg->0@ == "1"@);
            &&& big ==> r.1 == Effect::Redraw && r.0@[0]@ == "kursor: besar"@
                && *final(wm) == (Wm { cursor_scale: 2, ..*old(wm) })
            &&& !big && normal ==> r.1 == Effect::Redraw && r.0@[0]@ == "kursor: normal"@
                && *final(wm) == (Wm { cursor_scale: 1, ..*old(wm) })
            &&& !big && !normal ==> r.1 == Effect::Nothing && r.0@[0]@ == "cursor: normal | besar"@
                && *final(wm) == *old(wm)
        }),
{
    if let Some(a) = arg {
        if str_eq(a, "besar") || str_eq(a, "large") || str_eq(a, "2") {
            crate::wm::set_cursor_scale(wm, 2);
            return (one(owned("kursor: besar")), Effect::Redraw);
        }
        if str_eq(a, "normal") || str_eq(a, "1") {
            crate::wm::set_cursor_scale(wm, 1);
            return (one(owned("kursor: normal")), Effect::Redraw);
        }
    }
    (one(owned("cursor: normal | besar")), Effect::Nothing)
}

/// `anim`: turn window animations on or off (corner rounding is kept).
pub fn anim_cmd(wm: &mut Wm, arg: Option<&str>) -> (r: (Vec<String>, Effect))
    requires
        old(wm).wf(),
    ensures
        final(wm).wf(),
        r.0@.len() == 1,
        arg is Some && arg->0@ == "off"@ ==> r.1 == Effect::Redraw && r.0@[0]@ == "animasi: off"@
            && *final(wm) == (Wm { animations: false, ..*old(wm) }),
        arg is Some && arg->0@ == "on"@ ==> r.1 == Effect::Redraw && r.0@[0]@ == "animasi: on"@
            && *final(wm) == (Wm { animations: true, ..*old(wm) }),
        !(arg is Some && (arg->0@ == "off"@ || arg->0@ == "on"@)) ==> r.1 == Effect::Nothing
            && r.0@[0]@ == "anim: on | off"@ && *final(wm) == *old(wm),
{
    let (_, rounded) = crate::wm::options(wm);
    proof {
        reveal_strlit("on");
        reveal_strlit("off");
        assert("on"@.len() != "off"@.len());
    }
    if let Some(a) = arg {
        if str_eq(a, "off") {
            crate::wm::set_options(wm, false, rounded);
            return (one(owned("animasi: off")), Effect::Redraw);
        }
        if str_eq(a, "on") {
            crate::wm::set_options(wm, true, rounded);
            return (one(owned("animasi: on")), Effect::Redraw);
        }
    }
    (one(owned("anim: on | off")), Effect::Nothing)
}

/// `"on"` or `"off"`.
pub open spec fn on_off(b: bool) -> Seq<char> {
    if b { "on"@ } else { "off"@ }
}

fn on_off_str(b: bool) -> (r: &'static str)
    ensures
        r@ == on_off(b),
{
    if b { "on" } else { "off" }
}

/// `settings`: the personalization values.
pub fn settings_show<D>(sys: &System<D>) -> (r: Vec<String>)
    ensures
        texts(r@) == seq![
            "== Personalization =="@,
            "  tema      : "@ + crate::theme::THEME_NAMES[sys.theme.index()]@,
            "  wallpaper : "@ + sys.wallpaper.label@,
            "  saver     : "@ + saver_shown(sys.saver),
            "  animasi   : "@ + on_off(sys.wm.animations),
            "  rounded   : "@ + on_off(sys.wm.rounded),
            "  ubah: theme/bg/saver/cursor/anim <nilai>"@,
        ],
{
    let (anim, rounded) = crate::wm::options(&sys.wm);
    let mut out = one(owned("== Personalization =="));
    out.push(cat2("  tema      : ", crate::theme::name(&sys.theme)));
    let l = crate::wallpaper::label(&sys.wallpaper);
    out.push(cat2("  wallpaper : ", l.as_str()));
    out.push(cat2("  saver     : ", sys.saver.name()));
    out.push(cat2("  animasi   : ", on_off_str(anim)));
    out.push(cat2("  rounded   : ", on_off_str(rounded)));
    out.push(owned("  ubah: theme/bg/saver/cursor/anim <nilai>"));
    assert(texts(out@) =~= seq![
        "== Personalization =="@,
        "  tema      : "@ + crate::theme::THEME_NAMES[sys.theme.index()]@,
        "  wallpaper : "@ + sys.wallpaper.label@,
        "  saver     : "@ + saver_shown(sys.saver),
        "  animasi   : "@ + on_off(sys.wm.animations),
        "  rounded   : "@ + on_off(sys.wm.rounded),
        "  ubah: theme/bg/saver/cursor/anim <nilai>"@,
    ]);
    out
}

/// `ask <prompt>`: the local bigram model continues the prompt (followed by
/// one space) by 48 characters.
pub fn ai_ask(ws: &Vec<String>, from: usize) -> (r: Vec<String>)
    requires
        from <= ws@.len(),
    ensures
        from == ws@.len() ==> texts(r@) == seq!["ask: butuh prompt (mis. 'ask kernel')"@],
        from < ws@.len() ==> {
            let full = joined(texts(ws@).skip(from as int)) + " "@;
            texts(r@) == seq![
                "[nalar/LLM lokal - buitenzorg/nalar-bigram]"@,
                full + crate::ai::generate(crate::ai::corpus_table(),
                    crate::ai::prompt_letter(vstd::utf8::encode_utf8(full)), 0x1234, 48),
            ]
        },
{
    if from == ws.len() {
        let r = one(owned("ask: butuh prompt (mis. 'ask kernel')"));
        assert(texts(r@) =~= seq!["ask: butuh prompt (mis. 'ask kernel')"@]);
        return r;
    }
    let mut full = join_from(ws, from);
    push_str(&mut full, " ");
    let out = crate::ai::llm_complete(full.as_str(), 48);
    let mut r = one(owned("[nalar/LLM lokal - buitenzorg/nalar-bigram]"));
    r.push(out);
    assert(texts(r@) =~= seq![
        "[nalar/LLM lokal - buitenzorg/nalar-bigram]"@,
        full@ + crate::ai::generate(crate::ai::corpus_table(),
            crate::ai::prompt_letter(vstd::utf8::encode_utf8(full@)), 0x1234, 48),
    ]);
    r
}


// ---------------------------------------------------------------- models, power

/// A gallery row of `bz model list`.
pub open spec fn model_row(pulled: Seq<Seq<char>>, i: int) -> Seq<char> {
    let m = crate::model::spec_model(i);
    (if pulled.contains(crate::model::resolve_id(m.id@)) { "[v]"@ } else { "[ ]"@ }) + " "@
        + padded(m.id@, 28) + " "@ + padded(m.task@, 15) + " "@ + decimal(m.size_mb as nat) + "MB "@ + m.format@
}

/// `bz model`: `list` (the default), `pull <id>` / `download <id>`, `info <id>`.
pub fn model_cmd(models: &mut ModelRegistry, ws: &Vec<String>, from: usize) -> (r: (Vec<String>, Effect))
    requires
        from <= ws@.len(),
    ensures
        r.1 == Effect::Nothing,
        ({
            let sub = word_at(ws@, from as int);
            (sub is None || sub->0 == "list"@) ==> final(models).pulled@ == old(models).pulled@
                && r.0@.len() == 7 && r.0@[0]@ == "galeri model (Hugging Face-style):"@
                && forall|i: int| 0 <= i < 6 ==> (#[trigger] r.0@[i + 1])@
                    == model_row(crate::model::pulled_ids(old(models)), i)
        }),
        ({
            let sub = word_at(ws@, from as int);
            let id = word_at(ws@, from + 1);
            sub is Some && (sub->0 == "pull"@ || sub->0 == "download"@) && id is None
                ==> texts(r.0@) == seq!["bz model pull <id>"@] && final(models).pulled@ == old(models).pulled@
        }),
        ({
            let sub = word_at(ws@, from as int);
            let id = word_at(ws@, from + 1);
            sub is Some && (sub->0 == "pull"@ || sub->0 == "download"@) && id is Some
                && (forall|i: int| 0 <= i < 6 ==> !#[trigger] crate::model::matches(i, id->0)) ==> r.0@.len() == 1
                && r.0@[0]@ == "bz model: "@ + id->0 + ": "@ + "model not in gallery"@
                && final(models).pulled@ == old(models).pulled@
        }),
        ({
            let sub = word_at(ws@, from as int);
            let id = word_at(ws@, from + 1);
            sub is Some && sub->0 == "info"@ ==> final(models).pulled@ == old(models).pulled@
                && (id is None ==> texts(r.0@) == seq!["bz model info <id>"@])
                && (id is Some && (forall|i: int| 0 <= i < 6 ==> !#[trigger] crate::model::matches(i, id->0)) ==>
                    texts(r.0@) == seq!["bz model: '"@ + id->0 + "' tidak ada di galeri"@])
        }),
        ({
            let sub = word_at(ws@, from as int);
            sub is Some && sub->0 != "list"@ && sub->0 != "pull"@ && sub->0 != "download"@ && sub->0 != "info"@
                ==> texts(r.0@) == seq!["bz model "@ + sub->0 + ": list|pull|info"@]
                    && final(models).pulled@ == old(models).pulled@
        }),
{
    proof {
        reveal_strlit("list");
        reveal_strlit("pull");
        reveal_strlit("download");
        reveal_strlit("info");
        assert("list"@ != "pull"@ && "list"@ != "info"@ && "pull"@ != "info"@) by {
            assert("list"@[0] != "pull"@[0] && "list"@[0] != "info"@[0] && "pull"@[0] != "info"@[0]);
        }
        assert("download"@.len() != "list"@.len() && "download"@.len() != "info"@.len());
    }
    let sub = arg_at(ws, from);
    let is_list = match sub { None => true, Some(s) => str_eq(s, "list") };
    if is_list {
        let mut out = one(owned("galeri model (Hugging Face-style):"));
        let mut i: usize = 0;
        while i < crate::model::GALLERY_LEN
            invariant
                i <= 6,
                out@.len() == i + 1,
                out@[0]@ == "galeri model (Hugging Face-style):"@,
                forall|k: int| 0 <= k < i ==> (#[trigger] out@[k + 1])@ == model_row(crate::model::pulled_ids(models), k),
            decreases 6 - i,
        {
            let m = crate::model::model_at(i);
            let mark = if crate::model::is_pulled(models, m.id) { "[v]" } else { "[ ]" };
            let mut t = cat2(mark, " ");
            push_padded(&mut t, m.id, 28);
            push_str(&mut t, " ");
            push_padded(&mut t, m.task, 15);
            push_str(&mut t, " ");
            push_decimal(&mut t, m.size_mb as u64);
            push_str(&mut t, "MB ");
            push_str(&mut t, m.format);
            assert(t@ == model_row(crate::model::pulled_ids(models), i as int));
            out.push(t);
            i = i + 1;
        }
        return (out, Effect::Nothing);
    }
    let sub = sub.unwrap();
    let _n = ws.len();
    assert(from < ws@.len());
    let id = arg_at(ws, from + 1);
    if str_eq(sub, "pull") || str_eq(sub, "download") {
        let id = match id {
            None => {
                let r = one(owned("bz model pull <id>"));
                assert(texts(r@) =~= seq!["bz model pull <id>"@]);
                return (r, Effect::Nothing);
            },
            Some(id) => id,
        };
        match crate::model::pull(models, id) {
            Ok(m) => {
                let mut t = cat3("model diunduh: ", m.id, " (");
                push_decimal(&mut t, m.size_mb as u64);
                push_str(&mut t, " MB, ");
                push_str(&mut t, m.license);
                push_str(&mut t, ")");
                (one(t), Effect::Nothing)
            },
            Err(e) => (one(cat4("bz model: ", id, ": ", e)), Effect::Nothing),
        }
    } else if str_eq(sub, "info") {
        let id = match id {
            None => {
                let r = one(owned("bz model info <id>"));
                assert(texts(r@) =~= seq!["bz model info <id>"@]);
                return (r, Effect::Nothing);
            },
            Some(id) => id,
        };
        match crate::model::find(id) {
            Some(m) => {
                let mut out = one(cat2("id      : ", m.id));
                out.push(cat2("task    : ", m.task));
                let mut t = owned("size    : ");
                push_decimal(&mut t, m.size_mb as u64);
                push_str(&mut t, " MB (VRAM ~");
                push_decimal(&mut t, m.vram_mb as u64);
                push_str(&mut t, " MB)");
                out.push(t);
                out.push(cat4("license : ", m.license, "   format: ", m.format));
                let st = if crate::model::is_pulled(models, m.id) { "tersedia offline" } else { "belum diunduh" };
                out.push(cat2("status  : ", st));
                (out, Effect::Nothing)
            },
            None => {
                let r = one(cat3("bz model: '", id, "' tidak ada di galeri"));
                assert(texts(r@) =~= seq!["bz model: '"@ + id@ + "' tidak ada di galeri"@]);
                (r, Effect::Nothing)
            },
        }
    } else {
        let r = one(cat3("bz model ", sub, ": list|pull|info"));
        assert(texts(r@) =~= seq!["bz model "@ + sub@ + ": list|pull|info"@]);
        (r, Effect::Nothing)
    }
}

/// `"true"` or `"false"`.
pub open spec fn bool_text(b: bool) -> Seq<char> {
    if b { "true"@ } else { "false"@ }
}

/// The `bz power` status line.
pub open spec fn power_line(p: Power) -> Seq<char> {
    "power: acpi="@ + bool_text(p.acpi_ok) + " pm1a_cnt=0x"@ + hex(p.pm1a_cnt as nat) + " slp_typ_s5="@
        + decimal((p.slp_typa >> 10u16) as nat) + " reset_port=0x"@ + hex(p.reset_port as nat)
}

/// `bz power`: `off`/`shutdown`, `restart`/`reboot` or `sleep` ask the
/// machine; anything else shows the ACPI state.
pub fn power_cmd(power: &Power, ws: &Vec<String>, from: usize) -> (r: (Vec<String>, Effect, Request))
    requires
        from <= ws@.len(),
    ensures
        ({
            let sub = if from < ws@.len() { ws@[from as int]@ } else { ""@ };
            let off = from < ws@.len() && (sub == "off"@ || sub == "shutdown"@);
            let restart = from < ws@.len() && (sub == "restart"@ || sub == "reboot"@);
            let sleep = from < ws@.len() && sub == "sleep"@;
            &&& off ==> r.0@.len() == 0 && r.1 == Effect::Nothing && r.2 is Shutdown
            &&& !off && restart ==> r.0@.len() == 0 && r.1 == Effect::Nothing && r.2 is Restart
            &&& !off && !restart && sleep ==> texts(r.0@) == seq!["bangun dari sleep"@] && r.1 == Effect::Redraw
                && r.2 is Sleep
            &&& !off && !restart && !sleep ==> r.1 == Effect::Nothing && r.2 is Nothing
                && texts(r.0@) == seq![power_line(*power), "bz power off | restart | sleep"@]
        }),
{
    proof { reveal_strlit(""); }
    let sub = match arg_at(ws, from) { Some(s) => s, None => "" };
    if from < ws.len() && (str_eq(sub, "off") || str_eq(sub, "shutdown")) {
        return (Vec::new(), Effect::Nothing, Request::Shutdown);
    }
    if from < ws.len() && (str_eq(sub, "restart") || str_eq(sub, "reboot")) {
        return (Vec::new(), Effect::Nothing, Request::Restart);
    }
    if from < ws.len() && str_eq(sub, "sleep") {
        let r = one(owned("bangun dari sleep"));
        assert(texts(r@) =~= seq!["bangun dari sleep"@]);
        return (r, Effect::Redraw, Request::Sleep);
    }
    let (acpi, pm1a, slp, reset) = power.summary();
    let mut t = owned("power: acpi=");
    push_str(&mut t, if acpi { "true" } else { "false" });
    push_str(&mut t, " pm1a_cnt=0x");
    push_hex(&mut t, pm1a as u64);
    push_str(&mut t, " slp_typ_s5=");
    push_decimal(&mut t, slp as u64);
    push_str(&mut t, " reset_port=0x");
    push_hex(&mut t, reset as u64);
    let mut out = one(t);
    out.push(owned("bz power off | restart | sleep"));
    assert(texts(out@) =~= seq![power_line(*power), "bz power off | restart | sleep"@]);
    (out, Effect::Nothing, Request::Nothing)
}

// ---------------------------------------------------------------- packages

/// `n` occurs in `h`.
pub open spec fn has_text(h: Seq<char>, n: Seq<char>) -> bool {
    exists|i: int| #[trigger] occurs_at(h, n, i)
}

/// Registry entry `i` passes the `bz list` filter.
pub open spec fn pkg_shown(f: Option<Seq<char>>, i: int) -> bool {
    match f {
        None => true,
        Some(f) => has_text(crate::pkg::PKG_NAMES[i]@, f) || has_text(crate::pkg::PKG_DESCRIPTIONS[i]@, f),
    }
}

/// The `bz list` row of registry entry `i`.
pub open spec fn pkg_row(installed: Seq<Seq<char>>, i: int) -> Seq<char> {
    (if installed.contains(crate::pkg::PKG_NAMES[i]@) { "[x]"@ } else { "[ ]"@ }) + " "@
        + padded(crate::pkg::PKG_NAMES[i]@, 10) + " "@ + padded(crate::pkg::PKG_VERSIONS[i]@, 7) + " "@
        + crate::pkg::PKG_DESCRIPTIONS[i]@ + " ("@ + crate::pkg::PKG_KINDS[i]@ + ")"@
}

/// The rows of the first `n` registry entries that pass the filter.
pub open spec fn pkg_rows(installed: Seq<Seq<char>>, f: Option<Seq<char>>, n: int) -> Seq<Seq<char>>
    decreases n,
{
    if n <= 0 {
        Seq::empty()
    } else {
        pkg_rows(installed, f, n - 1) + if pkg_shown(f, n - 1) { seq![pkg_row(installed, n - 1)] } else { Seq::empty() }
    }
}

/// `bz list [filter]`: the registry, each entry marked when installed,
/// keeping those whose name or description contains the filter.
pub fn pkg_list(pkgs: &PkgState, filter: Option<&str>) -> (r: Vec<String>)
    ensures
        texts(r@) == seq!["registry paket:"@]
            + pkg_rows(crate::pkg::installed_names(pkgs), arg_text(filter), crate::pkg::REGISTRY_LEN as int),
{
    let mut out = one(owned("registry paket:"));
    let ghost inst = crate::pkg::installed_names(pkgs);
    let mut i: usize = 0;
    while i < crate::pkg::REGISTRY_LEN
        invariant
            i <= crate::pkg::REGISTRY_LEN,
            inst == crate::pkg::installed_names(pkgs),
            texts(out@) == seq!["registry paket:"@] + pkg_rows(inst, arg_text(filter), i as int),
        decreases crate::pkg::REGISTRY_LEN - i,
    {
        let p = crate::pkg::package_at(i);
        let shown = match filter {
            None => true,
            Some(f) => str_contains(p.name, f) || str_contains(p.description, f),
        };
        let ghost before = texts(out@);
        if shown {
            let mark = if crate::pkg::is_installed(pkgs, p.name) { "[x]" } else { "[ ]" };
            let mut t = cat2(mark, " ");
            push_padded(&mut t, p.name, 10);
            push_str(&mut t, " ");
            push_padded(&mut t, p.version, 7);
            push_str(&mut t, " ");
            push_str(&mut t, p.description);
            push_str(&mut t, " (");
            push_str(&mut t, p.kind);
            push_str(&mut t, ")");
            assert(t@ == pkg_row(inst, i as int));
            out.push(t);
            assert(texts(out@) =~= before.push(pkg_row(inst, i as int)));
        }
        assert(texts(out@) =~= seq!["registry paket:"@] + pkg_rows(inst, arg_text(filter), i + 1));
        i = i + 1;
    }
    out
}

/// `bz install <name>`: installs a registered package whose payload the VFS
/// can read.
pub fn pkg_install<D: BlockDevice>(sys: &mut System<D>, name: Option<&str>) -> (r: Vec<String>)
    requires
        old(sys).inv(),
    ensures
        final(sys).inv(),
        vfs_kept(&old(sys).vfs, &final(sys).vfs),
        final(sys).shell.cwd == old(sys).shell.cwd && final(sys).theme == old(sys).theme && final(sys).wm == old(sys).wm,
        final(sys).wallpaper == old(sys).wallpaper && final(sys).saver == old(sys).saver,
        final(sys).models == old(sys).models && final(sys).power == old(sys).power,
        r@.len() == 1,
        name is None ==> r@[0]@ == "bz install: butuh nama paket (lihat 'bz list')"@ && final(sys).pkgs.installed@ == old(sys).pkgs.installed@,
        name is Some && !registered(name->0@) ==> r@[0]@ == "bz install: "@ + name->0@ + ": "@ + "package not in registry"@
            && final(sys).pkgs.installed@ == old(sys).pkgs.installed@,
        name is Some && registered(name->0@) ==> {
            let inst = crate::pkg::installed_names(&old(sys).pkgs);
            ||| (!inst.contains(name->0@) && crate::pkg::installed_names(&final(sys).pkgs) == inst.push(name->0@)
                && exists|i: int| 0 <= i < crate::pkg::REGISTRY_LEN && crate::pkg::PKG_NAMES[i]@ == name->0@
                    && r@[0]@ == "terpasang: "@ + name->0@ + " v"@ + crate::pkg::PKG_VERSIONS[i]@)
            ||| (final(sys).pkgs.installed@ == old(sys).pkgs.installed@ && is_prefix("bz install: "@ + name->0@ + ": "@, r@[0]@))
        },
{
    let n = match name {
        None => return one(owned("bz install: butuh nama paket (lihat 'bz list')")),
        Some(n) => n,
    };
    let present = match crate::pkg::payload_path(n) {
        Some(p) => crate::vfs::read(&mut sys.vfs, p.as_str()).is_ok(),
        None => false,
    };
    match crate::pkg::install(&mut sys.pkgs, n, present) {
        Ok(ver) => one(cat4("terpasang: ", n, " v", ver)),
        Err(e) => {
            let r = one(cat4("bz install: ", n, ": ", e));
            assert(r@[0]@.take(("bz install: "@ + n@ + ": "@).len() as int) =~= "bz install: "@ + n@ + ": "@);
            r
        },
    }
}

/// `bz remove <name>`: uninstalls a package.
pub fn pkg_remove(pkgs: &mut PkgState, name: Option<&str>) -> (r: Vec<String>)
    ensures
        r@.len() == 1,
        name is None ==> r@[0]@ == "bz remove: butuh nama paket"@ && final(pkgs).installed@ == old(pkgs).installed@,
        name is Some && !crate::pkg::installed_names(old(pkgs)).contains(name->0@) ==>
            r@[0]@ == "bz remove: "@ + name->0@ + ": "@ + "not installed"@ && final(pkgs).installed@ == old(pkgs).installed@,
        name is Some && crate::pkg::installed_names(old(pkgs)).contains(name->0@) ==>
            r@[0]@ == "dihapus: "@ + name->0@ && final(pkgs).installed@.len() + 1 == old(pkgs).installed@.len(),
{
    let n = match name {
        None => return one(owned("bz remove: butuh nama paket")),
        Some(n) => n,
    };
    match crate::pkg::remove(pkgs, n) {
        Ok(()) => one(cat2("dihapus: ", n)),
        Err(e) => one(cat4("bz remove: ", n, ": ", e)),
    }
}


// ---------------------------------------------------------------- dispatch

/// The shell's commands.
#[derive(Clone, Copy, PartialEq, Eq, Debug, Structural)]
pub enum Command {
    Help,
    Ls,
    Cat,
    Echo,
    Pwd,
    Cd,
    Clear,
    Ver,
    About,
    Mounts,
    Theme,
    Ws,
    Run,
    Bg,
    Saver,
    Cursor,
    Anim,
    Settings,
    Ask,
    Shutdown,
    Restart,
    Sleep,
    Bz,
    Unknown,
}

/// The command a word names (aliases included).
pub open spec fn command_named(c: Seq<char>) -> Command {
    if c == "help"@ { Command::Help }
    else if c == "ls"@ || c == "dir"@ { Command::Ls }
    else if c == "cat"@ || c == "type"@ { Command::Cat }
    else if c == "echo"@ { Command::Echo }
    else if c == "pwd"@ { Command::Pwd }
    else if c == "cd"@ { Command::Cd }
    else if c == "clear"@ || c == "cls"@ { Command::Clear }
    else if c == "ver"@ || c == "uname"@ { Command::Ver }
    else if c == "about"@ || c == "credits"@ { Command::About }
    else if c == "mounts"@ { Command::Mounts }
    else if c == "theme"@ { Command::Theme }
    else if c == "ws"@ { Command::Ws }
    else if c == "run"@ { Command::Run }
    else if c == "bg"@ || c == "wallpaper"@ { Command::Bg }
    else if c == "saver"@ || c == "screensaver"@ { Command::Saver }
    else if c == "cursor"@ { Command::Cursor }
    else if c == "anim"@ { Command::Anim }
    else if c == "settings"@ || c == "personalize"@ { Command::Settings }
    else if c == "ask"@ || c == "ai"@ { Command::Ask }
    else if c == "shutdown"@ || c == "poweroff"@ { Command::Shutdown }
    else if c == "restart"@ || c == "reboot"@ { Command::Restart }
    else if c == "sleep"@ || c == "suspend"@ { Command::Sleep }
    else if c == "bz"@ { Command::Bz }
    else { Command::Unknown }
}

/// The command `c` names.
pub fn command(c: &str) -> (r: Command)
    ensures
        r == command_named(c@),
{
    if str_eq(c, "help") { Command::Help }
    else if str_eq(c, "ls") || str_eq(c, "dir") { Command::Ls }
    else if str_eq(c, "cat") || str_eq(c, "type") { Command::Cat }
    else if str_eq(c, "echo") { Command::Echo }
    else if str_eq(c, "pwd") { Command::Pwd }
    else if str_eq(c, "cd") { Command::Cd }
    else if str_eq(c, "clear") || str_eq(c, "cls") { Command::Clear }
    else if str_eq(c, "ver") || str_eq(c, "uname") { Command::Ver }
    else if str_eq(c, "about") || str_eq(c, "credits") { Command::About }
    else if str_eq(c, "mounts") { Command::Mounts }
    else if str_eq(c, "theme") { Command::Theme }
    else if str_eq(c, "ws") { Command::Ws }
    else if str_eq(c, "run") { Command::Run }
    else if str_eq(c, "bg") || str_eq(c, "wallpaper") { Command::Bg }
    else if str_eq(c, "saver") || str_eq(c, "screensaver") { Command::Saver }
    else if str_eq(c, "cursor") { Command::Cursor }
    else if str_eq(c, "anim") { Command::Anim }
    else if str_eq(c, "settings") || str_eq(c, "personalize") { Command::Settings }
    else if str_eq(c, "ask") || str_eq(c, "ai") { Command::Ask }
    else if str_eq(c, "shutdown") || str_eq(c, "poweroff") { Command::Shutdown }
    else if str_eq(c, "restart") || str_eq(c, "reboot") { Command::Restart }
    else if str_eq(c, "sleep") || str_eq(c, "suspend") { Command::Sleep }
    else if str_eq(c, "bz") { Command::Bz }
    else { Command::Unknown }
}

/// The `bz` subcommands.
#[derive(Clone, Copy, PartialEq, Eq, Debug, Structural)]
pub enum BzSub {
    Theme,
    Ws,
    Version,
    List,
    Install,
    Remove,
    Run,
    Model,
    Power,
    Unknown,
}

/// The `bz` subcommand a word names; no word means `version`.
pub open spec fn bz_sub_named(c: Option<Seq<char>>) -> BzSub {
    match c {
        None => BzSub::Version,
        Some(c) => if c == "theme"@ { BzSub::Theme }
            else if c == "ws"@ { BzSub::Ws }
            else if c == "version"@ { BzSub::Version }
            else if c == "list"@ || c == "search"@ { BzSub::List }
            else if c == "install"@ || c == "add"@ { BzSub::Install }
            else if c == "remove"@ || c == "uninstall"@ { BzSub::Remove }
            else if c == "run"@ { BzSub::Run }
            else if c == "model"@ { BzSub::Model }
            else if c == "power"@ { BzSub::Power }
            else { BzSub::Unknown },
    }
}

/// The `bz` subcommand `c` names.
pub fn bz_sub(c: Option<&str>) -> (r: BzSub)
    ensures
        r == bz_sub_named(arg_text(c)),
{
    match c {
        None => BzSub::Version,
        Some(c) => if str_eq(c, "theme") { BzSub::Theme }
            else if str_eq(c, "ws") { BzSub::Ws }
            else if str_eq(c, "version") { BzSub::Version }
            else if str_eq(c, "list") || str_eq(c, "search") { BzSub::List }
            else if str_eq(c, "install") || str_eq(c, "add") { BzSub::Install }
            else if str_eq(c, "remove") || str_eq(c, "uninstall") { BzSub::Remove }
            else if str_eq(c, "run") { BzSub::Run }
            else if str_eq(c, "model") { BzSub::Model }
            else if str_eq(c, "power") { BzSub::Power }
            else { BzSub::Unknown },
    }
}

/// The whole system is unchanged.
pub open spec fn unchanged<D: BlockDevice>(a: &System<D>, b: &System<D>) -> bool {
    rest_kept(a, b) && b.vfs == a.vfs
}

/// `bz <sub> ...`: the command-line front end (`ws` holds `bz` first).
pub fn bz_cmd<D: BlockDevice>(sys: &mut System<D>, ws: &Vec<String>) -> (r: (Vec<String>, Effect, Request))
    requires
        old(sys).inv(),
        ws@.len() >= 1,
    ensures
        final(sys).inv(),
        bz_sub_named(word_at(ws@, 1)) == BzSub::Version ==> unchanged(old(sys), final(sys))
            && texts(r.0@) == seq!["bz 0.12.0 'Nalar' - Buitenzorg CLI"@] && r.1 == Effect::Nothing && r.2 is Nothing,
        bz_sub_named(word_at(ws@, 1)) == BzSub::Unknown ==> unchanged(old(sys), final(sys))
            && texts(r.0@) == seq!["bz "@ + word_at(ws@, 1)->0 + ": belum tersedia (lihat roadmap \u{a7}16)"@]
            && r.1 == Effect::Nothing && r.2 is Nothing,
{
    let _n = ws.len();
    let sub = arg_at(ws, 1);
    let arg = arg_at(ws, 2);
    match bz_sub(sub) {
        BzSub::Theme => {
            let (o, e) = theme_cmd(&mut sys.theme, arg);
            (o, e, Request::Nothing)
        },
        BzSub::Ws => {
            let (o, e) = ws_cmd(&mut sys.wm, arg);
            (o, e, Request::Nothing)
        },
        BzSub::Version => {
            let r = one(owned("bz 0.12.0 'Nalar' - Buitenzorg CLI"));
            assert(texts(r@) =~= seq!["bz 0.12.0 'Nalar' - Buitenzorg CLI"@]);
            (r, Effect::Nothing, Request::Nothing)
        },
        BzSub::List => (pkg_list(&sys.pkgs, arg), Effect::Nothing, Request::Nothing),
        BzSub::Install => (pkg_install(sys, arg), Effect::Nothing, Request::Nothing),
        BzSub::Remove => (pkg_remove(&mut sys.pkgs, arg), Effect::Nothing, Request::Nothing),
        BzSub::Run => run_cmd(&sys.pkgs, arg),
        BzSub::Model => {
            let (o, e) = model_cmd(&mut sys.models, ws, 2);
            (o, e, Request::Nothing)
        },
        BzSub::Power => power_cmd(&sys.power, ws, 2),
        BzSub::Unknown => {
            let s = sub.unwrap();
            let r = one(cat3("bz ", s, ": belum tersedia (lihat roadmap \u{a7}16)"));
            assert(texts(r@) =~= seq!["bz "@ + s@ + ": belum tersedia (lihat roadmap \u{a7}16)"@]);
            (r, Effect::Nothing, Request::Nothing)
        },
    }
}

/// The output lines and effect of `line` for the commands whose result
/// does not depend on the system's state beyond the current directory: an
/// empty line, `clear`, `echo`, `pwd`, `ver`, `help`, `about`, `sleep` and an
/// unknown command.
pub open spec fn line_outcome<D>(sys: System<D>, line: Seq<char>) -> Option<(Seq<Seq<char>>, Effect)> {
    let ws = words(line);
    if ws.len() == 0 {
        Some((Seq::empty(), Effect::Nothing))
    } else {
        let c = command_named(ws[0]);
        if c == Command::Clear {
            Some((Seq::empty(), Effect::Clear))
        } else if c == Command::Echo {
            Some((seq![joined(ws.skip(1))], Effect::Nothing))
        } else if c == Command::Pwd {
            Some((seq![cwd_of(sys.shell.cwd@)], Effect::Nothing))
        } else if c == Command::Ver {
            Some((seq![version_text()], Effect::Nothing))
        } else if c == Command::Help {
            Some((Seq::new(21, |i: int| HELP[i]@), Effect::Nothing))
        } else if c == Command::About {
            Some((Seq::new(7, |i: int| ABOUT[i]@), Effect::Nothing))
        } else if c == Command::Sleep {
            Some((seq!["bangun dari sleep"@], Effect::Redraw))
        } else if c == Command::Unknown {
            Some((seq![ws[0] + ": command not found (try 'help')"@], Effect::Nothing))
        } else {
            None
        }
    }
}

/// The argument word of a command line's words, if there is one.
pub open spec fn arg_of(ws: Seq<Seq<char>>) -> Option<Seq<char>> {
    if ws.len() > 1 { Some(ws[1]) } else { None }
}

/// What `ls` does (see [`list_dir`]).
pub open spec fn ls_done<D: BlockDevice>(a: System<D>, b: System<D>, arg: Option<Seq<char>>, out: Seq<Seq<char>>) -> bool {
    &&& rest_kept(&a, &b)
    &&& vfs_kept(&a.vfs, &b.vfs)
    &&& out.len() >= 1
    &&& ({
        let p = resolved(cwd_of(a.shell.cwd@), arg);
        path_fails(&a.vfs, p) ==> out.len() == 1 && is_prefix("ls: "@ + p + ": "@, out[0])
    })
}

/// What `cat` does (see [`cat`]).
pub open spec fn cat_done<D: BlockDevice>(a: System<D>, b: System<D>, arg: Option<Seq<char>>, out: Seq<Seq<char>>) -> bool {
    &&& rest_kept(&a, &b)
    &&& vfs_kept(&a.vfs, &b.vfs)
    &&& arg is None ==> out.len() == 1 && out[0] == "cat: butuh nama file"@
    &&& ({
        let p = resolved(cwd_of(a.shell.cwd@), arg);
        arg is Some && (path_fails(&a.vfs, p) || path_file(p).len() == 0)
            ==> out.len() == 1 && is_prefix("cat: "@ + p + ": "@, out[0])
    })
}

/// What `cd` does (see [`cd`]).
pub open spec fn cd_done<D>(a: System<D>, b: System<D>, arg: Option<Seq<char>>, out: Seq<Seq<char>>) -> bool {
    let p = resolved(cwd_of(a.shell.cwd@), arg);
    &&& path_mounted(&a.vfs, p) ==> out.len() == 0 && b.shell.cwd@ == p
    &&& !path_mounted(&a.vfs, p) ==> out.len() == 1 && out[0] == "cd: "@ + p + ": tidak ada"@ && b.shell.cwd == a.shell.cwd
    &&& b.vfs == a.vfs && b.theme == a.theme && b.wm == a.wm && b.wallpaper == a.wallpaper
    &&& b.saver == a.saver && b.pkgs == a.pkgs && b.models == a.models && b.power == a.power
}

/// What `theme` does to the theme (see [`theme_cmd`]).
pub open spec fn theme_done(a: ThemeState, b: ThemeState, arg: Option<Seq<char>>, out: Seq<Seq<char>>, e: Effect) -> bool {
    let toggle = arg is None || arg->0 == "toggle"@;
    let cycle = arg is Some && (arg->0 == "cycle"@ || arg->0 == "next"@);
    let list = arg is Some && arg->0 == "list"@;
    &&& toggle ==> b.index() == (if a.index() == 0 { 1int } else { 0int })
        && e == Effect::Redraw && out.len() == 1 && out[0] == "tema: "@ + crate::theme::THEME_NAMES[b.index()]@
    &&& cycle ==> b.index() == (a.index() + 1) % (crate::theme::THEME_COUNT as int)
        && e == Effect::Redraw && out.len() == 1 && out[0] == "tema: "@ + crate::theme::THEME_NAMES[b.index()]@
    &&& list ==> b.index() == a.index() && e == Effect::Nothing && out == theme_list_text(a.index())
    &&& !toggle && !cycle && !list ==> {
        let name = arg->0;
        let found = exists|i: int| 0 <= i < crate::theme::THEME_COUNT && #[trigger] crate::theme::names_theme(name, i);
        &&& found ==> e == Effect::Redraw && out.len() == 1 && out[0] == "tema: "@ + name && crate::theme::names_theme(name, b.index())
        &&& !found ==> e == Effect::Nothing && b.index() == a.index()
            && out.len() == 1 && out[0] == "theme: '"@ + name + "' tidak dikenal (coba 'theme list')"@
    }
}

/// What `ws` does to the window manager (see [`ws_cmd`]).
pub open spec fn ws_done(a: Wm, b: Wm, arg: Option<Seq<char>>, out: Seq<Seq<char>>, e: Effect) -> bool {
    &&& out.len() == 1
    &&& arg is None ==> b == a && e == Effect::Nothing && out[0] == "workspace: "@ + decimal(a.workspace as nat + 1)
    &&& arg is Some ==> match crate::text::u32_text(arg->0) {
        Some(v) => if 1 <= v <= 4 {
            e == Effect::Redraw && b.workspace == v - 1 && out[0] == "pindah ke desktop "@ + decimal(v as nat)
        } else {
            e == Effect::Nothing && b == a && out[0] == "ws: nomor 1..4"@
        },
        None => e == Effect::Nothing && b == a && out[0] == "ws: nomor 1..4"@,
    }
}

/// What `run` answers (see [`run_cmd`]).
pub open spec fn run_done(pkgs: PkgState, arg: Option<Seq<char>>, out: Seq<Seq<char>>, e: Effect, req: Request) -> bool {
    &&& e == Effect::Nothing
    &&& arg is None ==> req is Nothing && out.len() == 1 && out[0] == "run: butuh nama app (mis. 'run xox')"@
    &&& arg is Some ==> {
        let n = arg->0;
        &&& !launchable(n) ==> req is Nothing && out.len() == 1 && out[0] == "run: '"@ + n + "' tidak dikenal (lihat 'bz list')"@
        &&& launchable(n) && registered(n) && !crate::pkg::installed_names(&pkgs).contains(n) ==> req is Nothing
            && out.len() == 1 && out[0] == "run: '"@ + n + "' belum terpasang \u{2014} jalankan 'bz install "@ + n + "'"@
        &&& launchable(n) && (!registered(n) || crate::pkg::installed_names(&pkgs).contains(n)) ==>
            out.len() == 0 && (req matches Request::Run(x) && x@ == n)
    }
}

/// What `bg` does (see [`bg_cmd`]).
pub open spec fn bg_done<D: BlockDevice>(a: System<D>, b: System<D>, arg: Option<Seq<char>>, out: Seq<Seq<char>>, e: Effect) -> bool {
    &&& vfs_kept(&a.vfs, &b.vfs)
    &&& b.shell.cwd == a.shell.cwd && b.theme == a.theme && b.wm == a.wm
    &&& b.saver == a.saver && b.pkgs == a.pkgs && b.models == a.models && b.power == a.power
    &&& arg is None ==> e == Effect::Nothing && out == seq!["wallpaper: "@ + a.wallpaper.label@] && b.wallpaper == a.wallpaper
    &&& arg is Some && arg->0 == "list"@ ==> e == Effect::Nothing && b.wallpaper == a.wallpaper
        && out.len() == 7 && out[0] == "wallpaper bawaan:"@
        && (forall|i: int| 0 <= i < 5 ==> #[trigger] out[i + 1] == "  "@ + crate::wallpaper::BUILTINS[i]@)
        && out[6] == "  /disk/<file>.bmp (gambar user 24-bit)"@
    &&& arg is Some && arg->0 != "list"@ && arg->0.len() > 0 && arg->0[0] == '/' && path_fails(&a.vfs, arg->0)
        ==> e == Effect::Nothing && out.len() == 1 && is_prefix("bg: "@ + arg->0 + ": "@, out[0])
            && b.wallpaper == a.wallpaper
    &&& arg is Some && arg->0 != "list"@ && !(arg->0.len() > 0 && arg->0[0] == '/') ==> {
        let n = arg->0;
        &&& crate::wallpaper::builtin_kind(n) is Some ==> e == Effect::Redraw && out == seq!["wallpaper: "@ + n]
            && b.wallpaper.label@ == n && b.wallpaper.kind == crate::wallpaper::builtin_kind(n)->0
        &&& crate::wallpaper::builtin_kind(n) is None ==> e == Effect::Nothing && b.wallpaper == a.wallpaper
            && out == seq!["bg: '"@ + n + "' tidak dikenal (coba 'bg list')"@]
    }
}

/// What `saver` does to the screensaver settings (see [`saver_cmd`]).
pub open spec fn saver_done(a: screensaver::Config, b: screensaver::Config, arg: Option<Seq<char>>, out: Seq<Seq<char>>, e: Effect) -> bool {
    &&& e == Effect::Nothing
    &&& arg is None ==> b == a && out == seq!["screensaver: "@ + saver_shown(a)]
    &&& arg is Some && arg->0 == "list"@ ==> b == a && out.len() == 8 && out[0] == "screensaver:"@
        && (forall|i: int| 0 <= i < 6 ==> #[trigger] out[i + 1] == "  "@ + screensaver::NAMES[i]@)
        && out[7] == "  off"@
    &&& arg is Some && arg->0 != "list"@ ==> {
        let n = arg->0;
        let known = screensaver::saver_named(n) is Some || n == "off"@ || n == "none"@;
        &&& known ==> out == seq!["screensaver: "@ + saver_shown(b)] && b.timeout == a.timeout
            && (screensaver::saver_named(n) is Some ==> b.enabled && b.saver == screensaver::saver_named(n)->0)
            && (screensaver::saver_named(n) is None ==> !b.enabled)
        &&& !known ==> b == a && out == seq!["saver: '"@ + n + "' tidak dikenal (coba 'saver list')"@]
    }
}

/// What `cursor` does to the window manager (see [`cursor_cmd`]).
pub open spec fn cursor_done(a: Wm, b: Wm, arg: Option<Seq<char>>, out: Seq<Seq<char>>, e: Effect) -> bool {
    let big = arg is Some && (arg->0 == "besar"@ || arg->0 == "large"@ || arg->0 == "2"@);
    let normal = arg is Some && (arg->0 == "normal"@ || arg->0 == "1"@);
    &&& big ==> e == Effect::Redraw && out.len() == 1 && out[0] == "kursor: besar"@ && b == (Wm { cursor_scale: 2, ..a })
    &&& !big && normal ==> e == Effect::Redraw && out.len() == 1 && out[0] == "kursor: normal"@ && b == (Wm { cursor_scale: 1, ..a })
    &&& !big && !normal ==> e == Effect::Nothing && out.len() == 1 && out[0] == "cursor: normal | besar"@ && b == a
}

/// What `anim` does to the window manager (see [`anim_cmd`]).
pub open spec fn anim_done(a: Wm, b: Wm, arg: Option<Seq<char>>, out: Seq<Seq<char>>, e: Effect) -> bool {
    &&& arg is Some && arg->0 == "off"@ ==> e == Effect::Redraw && out.len() == 1 && out[0] == "animasi: off"@ && b == (Wm { animations: false, ..a })
    &&& arg is Some && arg->0 == "on"@ ==> e == Effect::Redraw && out.len() == 1 && out[0] == "animasi: on"@ && b == (Wm { animations: true, ..a })
    &&& !(arg is Some && (arg->0 == "off"@ || arg->0 == "on"@)) ==> e == Effect::Nothing
        && out.len() == 1 && out[0] == "anim: on | off"@ && b == a
}

/// What `settings` shows (see [`settings_show`]).
pub open spec fn settings_text<D>(sys: System<D>) -> Seq<Seq<char>> {
    seq![
        "== Personalization =="@,
        "  tema      : "@ + crate::theme::THEME_NAMES[sys.theme.index()]@,
        "  wallpaper : "@ + sys.wallpaper.label@,
        "  saver     : "@ + saver_shown(sys.saver),
        "  animasi   : "@ + on_off(sys.wm.animations),
        "  rounded   : "@ + on_off(sys.wm.rounded),
        "  ubah: theme/bg/saver/cursor/anim <nilai>"@,
    ]
}

/// What `ask` answers for the words of a command line (see [`ai_ask`]).
pub open spec fn ask_text(ws: Seq<Seq<char>>) -> Seq<Seq<char>> {
    if ws.len() <= 1 {
        seq!["ask: butuh prompt (mis. 'ask kernel')"@]
    } else {
        let full = joined(ws.skip(1)) + " "@;
        seq![
            "[nalar/LLM lokal - buitenzorg/nalar-bigram]"@,
            full + crate::ai::generate(crate::ai::corpus_table(),
                crate::ai::prompt_letter(vstd::utf8::encode_utf8(full)), 0x1234, 48),
        ]
    }
}

/// What running command line `line` does: from `a` to `b`, with output
/// lines `out`, effect `e` and request `q` (see [`run`]).
pub open spec fn line_ran<D: BlockDevice>(a: System<D>, b: System<D>, line: Seq<char>, out: Seq<Seq<char>>, e: Effect, q: Request) -> bool {
    let ws = words(line);
    let c = if ws.len() > 0 { command_named(ws[0]) } else { Command::Unknown };
    let w = arg_of(ws);
    &&& ws.len() == 0 ==> out.len() == 0 && e == Effect::Nothing && q is Nothing && unchanged(&a, &b)
    &&& ws.len() > 0 ==> {
        &&& c == Command::Clear ==> out.len() == 0 && e == Effect::Clear && q is Nothing && unchanged(&a, &b)
        &&& c == Command::Echo ==> out == seq![joined(ws.skip(1))] && e == Effect::Nothing
            && q is Nothing && unchanged(&a, &b)
        &&& c == Command::Pwd ==> out == seq![cwd_of(a.shell.cwd@)] && e == Effect::Nothing
            && q is Nothing && unchanged(&a, &b)
        &&& c == Command::Ver ==> out == seq![version_text()] && e == Effect::Nothing
            && q is Nothing && unchanged(&a, &b)
        &&& c == Command::Help ==> out.len() == 21 && e == Effect::Nothing && q is Nothing
            && unchanged(&a, &b) && forall|i: int| 0 <= i < 21 ==> #[trigger] out[i] == HELP[i]@
        &&& c == Command::About ==> out.len() == 7 && e == Effect::Nothing && q is Nothing
            && unchanged(&a, &b) && forall|i: int| 0 <= i < 7 ==> #[trigger] out[i] == ABOUT[i]@
        &&& c == Command::Mounts ==> out.len() == a.vfs.mounts@.len() && e == Effect::Nothing
            && q is Nothing && unchanged(&a, &b)
            && forall|i: int| 0 <= i < out.len() ==> #[trigger] out[i] == seq!['/'] + a.vfs.mounts@[i].name@
        &&& c == Command::Shutdown ==> out.len() == 0 && q is Shutdown && unchanged(&a, &b)
        &&& c == Command::Restart ==> out.len() == 0 && q is Restart && unchanged(&a, &b)
        &&& c == Command::Sleep ==> out == seq!["bangun dari sleep"@] && e == Effect::Redraw
            && q is Sleep && unchanged(&a, &b)
        &&& c == Command::Unknown ==> out == seq![ws[0] + ": command not found (try 'help')"@]
            && e == Effect::Nothing && q is Nothing && unchanged(&a, &b)
        &&& c == Command::Ls ==> ls_done(a, b, w, out) && e == Effect::Nothing && q is Nothing
        &&& c == Command::Cat ==> cat_done(a, b, w, out) && e == Effect::Nothing && q is Nothing
        &&& c == Command::Cd ==> cd_done(a, b, w, out) && e == Effect::Nothing && q is Nothing
        &&& c == Command::Theme ==> theme_done(a.theme, b.theme, w, out, e) && q is Nothing
            && b == (System { theme: b.theme, ..a })
        &&& c == Command::Ws ==> ws_done(a.wm, b.wm, w, out, e) && q is Nothing
            && b == (System { wm: b.wm, ..a })
        &&& c == Command::Run ==> run_done(a.pkgs, w, out, e, q) && b == a
        &&& c == Command::Bg ==> bg_done(a, b, w, out, e) && q is Nothing
        &&& c == Command::Saver ==> saver_done(a.saver, b.saver, w, out, e) && q is Nothing
            && b == (System { saver: b.saver, ..a })
        &&& c == Command::Cursor ==> cursor_done(a.wm, b.wm, w, out, e) && q is Nothing
            && b == (System { wm: b.wm, ..a })
        &&& c == Command::Anim ==> anim_done(a.wm, b.wm, w, out, e) && q is Nothing
            && b == (System { wm: b.wm, ..a })
        &&& c == Command::Settings ==> out == settings_text(a) && e == Effect::Nothing && q is Nothing && b == a
        &&& c == Command::Ask ==> out == ask_text(ws) && e == Effect::Redraw && q is Nothing && b == a
    }
}

/// Run one command line: the output lines, the effect for the desktop and
/// the request for the machine.
#[verifier::rlimit(60)]
pub fn run<D: BlockDevice>(sys: &mut System<D>, line: &str) -> (r: (Vec<String>, Effect, Request))
    requires
        old(sys).inv(),
    ensures
        final(sys).inv(),
        words(line@).len() == 0 ==> r.0@.len() == 0 && r.1 == Effect::Nothing && r.2 is Nothing
            && unchanged(old(sys), final(sys)),
        words(line@).len() > 0 ==> {
            let ws = words(line@);
            let c = command_named(ws[0]);
            &&& c == Command::Clear ==> r.0@.len() == 0 && r.1 == Effect::Clear && r.2 is Nothing
                && unchanged(old(sys), final(sys))
            &&& c == Command::Echo ==> texts(r.0@) == seq![joined(ws.skip(1))] && r.1 == Effect::Nothing
                && r.2 is Nothing && unchanged(old(sys), final(sys))
            &&& c == Command::Pwd ==> texts(r.0@) == seq![cwd_of(old(sys).shell.cwd@)] && r.1 == Effect::Nothing
                && r.2 is Nothing && unchanged(old(sys), final(sys))
            &&& c == Command::Ver ==> texts(r.0@) == seq![version_text()] && r.1 == Effect::Nothing
                && r.2 is Nothing && unchanged(old(sys), final(sys))
            &&& c == Command::Help ==> r.0@.len() == 21 && r.1 == Effect::Nothing && r.2 is Nothing
                && unchanged(old(sys), final(sys)) && forall|i: int| 0 <= i < 21 ==> (#[trigger] r.0@[i])@ == HELP[i]@
            &&& c == Command::About ==> r.0@.len() == 7 && r.1 == Effect::Nothing && r.2 is Nothing
                && unchanged(old(sys), final(sys)) && forall|i: int| 0 <= i < 7 ==> (#[trigger] r.0@[i])@ == ABOUT[i]@
            &&& c == Command::Mounts ==> r.0@.len() == old(sys).vfs.mounts@.len() && r.1 == Effect::Nothing
                && r.2 is Nothing && unchanged(old(sys), final(sys))
                && forall|i: int| 0 <= i < r.0@.len() ==> (#[trigger] r.0@[i])@ == seq!['/'] + old(sys).vfs.mounts@[i].name@
            &&& c == Command::Shutdown ==> r.0@.len() == 0 && r.2 is Shutdown && unchanged(old(sys), final(sys))
            &&& c == Command::Restart ==> r.0@.len() == 0 && r.2 is Restart && unchanged(old(sys), final(sys))
            &&& c == Command::Sleep ==> texts(r.0@) == seq!["bangun dari sleep"@] && r.1 == Effect::Redraw
                && r.2 is Sleep && unchanged(old(sys), final(sys))
            &&& c == Command::Unknown ==> texts(r.0@) == seq![ws[0] + ": command not found (try 'help')"@]
                && r.1 == Effect::Nothing && r.2 is Nothing && unchanged(old(sys), final(sys))
        },
        line_outcome(*old(sys), line@) is Some ==> texts(r.0@) == (line_outcome(*old(sys), line@)->0).0
            && r.1 == (line_outcome(*old(sys), line@)->0).1,
        line_ran(*old(sys), *final(sys), line@, texts(r.0@), r.1, r.2),
        words(line@).len() > 0 ==> {
            let ws = words(line@);
            let c = command_named(ws[0]);
            let a = arg_of(ws);
            &&& c == Command::Ls ==> ls_done(*old(sys), *final(sys), a, texts(r.0@)) && r.1 == Effect::Nothing && r.2 is Nothing
            &&& c == Command::Cat ==> cat_done(*old(sys), *final(sys), a, texts(r.0@)) && r.1 == Effect::Nothing && r.2 is Nothing
            &&& c == Command::Cd ==> cd_done(*old(sys), *final(sys), a, texts(r.0@)) && r.1 == Effect::Nothing && r.2 is Nothing
            &&& c == Command::Theme ==> theme_done(old(sys).theme, final(sys).theme, a, texts(r.0@), r.1) && r.2 is Nothing
                && *final(sys) == (System { theme: final(sys).theme, ..*old(sys) })
            &&& c == Command::Ws ==> ws_done(old(sys).wm, final(sys).wm, a, texts(r.0@), r.1) && r.2 is Nothing
                && *final(sys) == (System { wm: final(sys).wm, ..*old(sys) })
            &&& c == Command::Run ==> run_done(old(sys).pkgs, a, texts(r.0@), r.1, r.2) && *final(sys) == *old(sys)
            &&& c == Command::Bg ==> bg_done(*old(sys), *final(sys), a, texts(r.0@), r.1) && r.2 is Nothing
            &&& c == Command::Saver ==> saver_done(old(sys).saver, final(sys).saver, a, texts(r.0@), r.1) && r.2 is Nothing
                && *final(sys) == (System { saver: final(sys).saver, ..*old(sys) })
            &&& c == Command::Cursor ==> cursor_done(old(sys).wm, final(sys).wm, a, texts(r.0@), r.1) && r.2 is Nothing
                && *final(sys) == (System { wm: final(sys).wm, ..*old(sys) })
            &&& c == Command::Anim ==> anim_done(old(sys).wm, final(sys).wm, a, texts(r.0@), r.1) && r.2 is Nothing
                && *final(sys) == (System { wm: final(sys).wm, ..*old(sys) })
            &&& c == Command::Settings ==> texts(r.0@) == settings_text(*old(sys)) && r.1 == Effect::Nothing
                && r.2 is Nothing && *final(sys) == *old(sys)
            &&& c == Command::Ask ==> texts(r.0@) == ask_text(ws) && r.1 == Effect::Redraw && r.2 is Nothing && *final(sys) == *old(sys)
        },
{
    let ws = split_words(line);
    if ws.len() == 0 {
        return (Vec::new(), Effect::Nothing, Request::Nothing);
    }
    let arg = arg_at(&ws, 1);
    let c = command(ws[0].as_str());
    match c {
        Command::Help => (help(), Effect::Nothing, Request::Nothing),
        Command::Ls => (list_dir(sys, arg), Effect::Nothing, Request::Nothing),
        Command::Cat => (cat(sys, arg), Effect::Nothing, Request::Nothing),
        Command::Echo => {
            let r = one(join_from(&ws, 1));
            assert(texts(r@) =~= seq![joined(words(line@).skip(1))]);
            (r, Effect::Nothing, Request::Nothing)
        },
        Command::Pwd => {
            let r = one(cwd(sys));
            assert(texts(r@) =~= seq![cwd_of(sys.shell.cwd@)]);
            (r, Effect::Nothing, Request::Nothing)
        },
        Command::Cd => (cd(sys, arg), Effect::Nothing, Request::Nothing),
        Command::Clear => (Vec::new(), Effect::Clear, Request::Nothing),
        Command::Ver => {
            let r = one(version());
            assert(texts(r@) =~= seq![version_text()]);
            (r, Effect::Nothing, Request::Nothing)
        },
        Command::About => (about(), Effect::Nothing, Request::Nothing),
        Command::Mounts => (crate::vfs::mounts(&sys.vfs), Effect::Nothing, Request::Nothing),
        Command::Theme => {
            let (o, e) = theme_cmd(&mut sys.theme, arg);
            (o, e, Request::Nothing)
        },
        Command::Ws => {
            let (o, e) = ws_cmd(&mut sys.wm, arg);
            (o, e, Request::Nothing)
        },
        Command::Run => run_cmd(&sys.pkgs, arg),
        Command::Bg => {
            let (o, e) = bg_cmd(sys, arg);
            (o, e, Request::Nothing)
        },
        Command::Saver => {
            let (o, e) = saver_cmd(&mut sys.saver, arg);
            (o, e, Request::Nothing)
        },
        Command::Cursor => {
            let (o, e) = cursor_cmd(&mut sys.wm, arg);
            (o, e, Request::Nothing)
        },
        Command::Anim => {
            let (o, e) = anim_cmd(&mut sys.wm, arg);
            (o, e, Request::Nothing)
        },
        Command::Settings => (settings_show(sys), Effect::Nothing, Request::Nothing),
        Command::Ask => (ai_ask(&ws, 1), Effect::Redraw, Request::Nothing),
        Command::Shutdown => (Vec::new(), Effect::Nothing, Request::Shutdown),
        Command::Restart => (Vec::new(), Effect::Nothing, Request::Restart),
        Command::Sleep => {
            let r = one(owned("bangun dari sleep"));
            assert(texts(r@) =~= seq!["bangun dari sleep"@]);
            (r, Effect::Redraw, Request::Sleep)
        },
        Command::Bz => bz_cmd(sys, &ws),
        Command::Unknown => {
            let r = one(cat2(ws[0].as_str(), ": command not found (try 'help')"));
            assert(texts(r@) =~= seq![words(line@)[0] + ": command not found (try 'help')"@]);
            (r, Effect::Nothing, Request::Nothing)
        },
    }
}

/// A path resolved against a current directory is never empty, so after a
/// successful `cd` the prompt and `pwd` show exactly the resolved path.
pub proof fn lemma_cd_then_pwd(base: Seq<char>, arg: Option<Seq<char>>)
    requires
        base.len() > 0,
    ensures
        cwd_of(resolved(base, arg)) == resolved(base, arg),
{
    match arg {
        None => {},
        Some(p) => {
            if !(p.len() > 0 && p[0] == '/') {
                reveal_strlit("/");
                assert((trim_slashes(base) + "/"@ + p).len() > 0);
            }
        },
    }
}

} // verus!
